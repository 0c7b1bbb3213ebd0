//! Calendar values the library reasons about: a proleptic-Gregorian
//! `Date` and a minute-granular wall-clock `Time`, with the calendar
//! arithmetic delegated to `chrono` behind small trusted wrappers whose
//! contracts state the arithmetic exactly (day numbers counted from
//! 0001-01-01 = day 1, ISO 8601 weeks).

use crate::text::{push_char, push_zero_padded, zero_padded};
use chrono::{Datelike, Days, NaiveDate, NaiveTime, Weekday};
use vstd::prelude::*;

verus! {

/// Smallest year `chrono::NaiveDate` can hold.
pub const CHRONO_MIN_YEAR: i32 = -262143;

/// Largest year `chrono::NaiveDate` can hold.
pub const CHRONO_MAX_YEAR: i32 = 262142;

pub open spec fn is_leap_year(y: int) -> bool {
    y % 4 == 0 && (y % 100 != 0 || y % 400 == 0)
}

pub open spec fn days_in_month(y: int, m: int) -> int {
    if m == 2 {
        if is_leap_year(y) {
            29
        } else {
            28
        }
    } else if m == 4 || m == 6 || m == 9 || m == 11 {
        30
    } else {
        31
    }
}

/// A real calendar date inside `chrono`'s representable range.
pub open spec fn valid_ymd(y: int, m: int, d: int) -> bool {
    CHRONO_MIN_YEAR <= y <= CHRONO_MAX_YEAR && 1 <= m <= 12 && 1 <= d <= days_in_month(y, m)
}

/// Days in all years strictly before `y` (counting from year 1).
pub open spec fn days_before_year(y: int) -> int {
    let p = y - 1;
    365 * p + p / 4 - p / 100 + p / 400
}

/// Days in the months of `y` strictly before month `m`.
pub open spec fn days_before_month(y: int, m: int) -> int {
    let base: int = if m <= 1 {
        0
    } else if m == 2 {
        31
    } else if m == 3 {
        59
    } else if m == 4 {
        90
    } else if m == 5 {
        120
    } else if m == 6 {
        151
    } else if m == 7 {
        181
    } else if m == 8 {
        212
    } else if m == 9 {
        243
    } else if m == 10 {
        273
    } else if m == 11 {
        304
    } else {
        334
    };
    if m > 2 && is_leap_year(y) {
        base + 1
    } else {
        base
    }
}

/// Day number of a date, 0001-01-01 being day 1 (`num_days_from_ce`).
pub open spec fn day_number(y: int, m: int, d: int) -> int {
    days_before_year(y) + days_before_month(y, m) + d
}

pub open spec fn min_day_number() -> int {
    day_number(CHRONO_MIN_YEAR as int, 1, 1)
}

pub open spec fn max_day_number() -> int {
    day_number(CHRONO_MAX_YEAR as int, 12, 31)
}

/// ISO weekday of a day number: 1 = Monday .. 7 = Sunday (day 1 was a Monday).
pub open spec fn weekday_of(n: int) -> int {
    (n - 1) % 7 + 1
}

/// Day number of the Monday that starts ISO week 1 of ISO year `y`
/// (the week holding January 4th).
pub open spec fn iso_week1_monday(y: int) -> int {
    let j4 = day_number(y, 1, 4);
    j4 - (weekday_of(j4) - 1)
}

/// ISO year of day number `n`, whose calendar year is `y`.
pub open spec fn iso_year_of(n: int, y: int) -> int {
    if n >= iso_week1_monday(y + 1) {
        y + 1
    } else if n >= iso_week1_monday(y) {
        y
    } else {
        y - 1
    }
}

/// ISO week number of day number `n`, whose calendar year is `y`.
pub open spec fn iso_week_of(n: int, y: int) -> int {
    (n - iso_week1_monday(iso_year_of(n, y))) / 7 + 1
}

/// How many ISO weeks ISO year `y` has (52 or 53).
pub open spec fn iso_weeks_in(y: int) -> int {
    (iso_week1_monday(y + 1) - iso_week1_monday(y)) / 7
}

/// Text of a year as `%Y` writes it: four zero-padded digits for
/// 0..=9999, otherwise an explicit sign before at least four digits.
pub open spec fn year_text(y: int) -> Seq<char> {
    if 0 <= y <= 9999 {
        zero_padded(y as nat, 4)
    } else if y < 0 {
        seq!['-'] + zero_padded((-y) as nat, 4)
    } else {
        seq!['+'] + zero_padded(y as nat, 4)
    }
}

/// `YYYY-MM-DD`.
pub open spec fn ymd_text(y: int, m: int, d: int) -> Seq<char> {
    year_text(y) + seq!['-'] + zero_padded(m as nat, 2) + seq!['-'] + zero_padded(d as nat, 2)
}

pub open spec fn leap_days(y: int) -> int {
    if is_leap_year(y) {
        1
    } else {
        0
    }
}

proof fn lemma_div4_step(y: int)
    ensures
        y / 4 - (y - 1) / 4 == (if y % 4 == 0 {
            1int
        } else {
            0
        }),
{
}

proof fn lemma_div100_step(y: int)
    ensures
        y / 100 - (y - 1) / 100 == (if y % 100 == 0 {
            1int
        } else {
            0
        }),
{
}

proof fn lemma_div400_step(y: int)
    ensures
        y / 400 - (y - 1) / 400 == (if y % 400 == 0 {
            1int
        } else {
            0
        }),
        y % 400 == 0 ==> y % 100 == 0,
        y % 100 == 0 ==> y % 4 == 0,
{
}

/// A year has 365 days plus one in a leap year.
pub proof fn lemma_year_length(y: int)
    ensures
        days_before_year(y + 1) == days_before_year(y) + 365 + leap_days(y),
{
    lemma_div4_step(y);
    lemma_div100_step(y);
    lemma_div400_step(y);
}

/// A real date lies inside its own year's span of day numbers.
pub proof fn lemma_day_in_year(y: int, m: int, d: int)
    requires
        1 <= m <= 12,
        1 <= d <= days_in_month(y, m),
    ensures
        days_before_year(y) + 1 <= day_number(y, m, d) <= days_before_year(y + 1),
{
    lemma_year_length(y);
}

pub(crate) proof fn lemma_years_before(a: int, b: int)
    requires
        a < b,
    ensures
        days_before_year(a + 1) <= days_before_year(b),
    decreases b - a,
{
    if a + 1 < b {
        lemma_years_before(a, b - 1);
        lemma_year_length(b - 1);
    }
}

proof fn lemma_months_before(y: int, m1: int, d1: int, m2: int, d2: int)
    requires
        1 <= m1 < m2 <= 12,
        1 <= d1 <= days_in_month(y, m1),
        1 <= d2 <= days_in_month(y, m2),
    ensures
        days_before_month(y, m1) + d1 < days_before_month(y, m2) + d2,
{
}

/// Chronological order of real dates is the order of their day numbers.
pub proof fn lemma_date_order(a: Date, b: Date)
    requires
        valid_ymd(a.y(), a.m(), a.d()),
        valid_ymd(b.y(), b.m(), b.d()),
    ensures
        date_lt(a, b) ==> a.num() < b.num(),
        a.num() == b.num() ==> a == b,
        a.num() < b.num() ==> date_lt(a, b),
{
    lemma_day_in_year(a.y(), a.m(), a.d());
    lemma_day_in_year(b.y(), b.m(), b.d());
    if a.y() < b.y() {
        lemma_years_before(a.y(), b.y());
    } else if b.y() < a.y() {
        lemma_years_before(b.y(), a.y());
    } else if a.m() < b.m() {
        lemma_months_before(a.y(), a.m(), a.d(), b.m(), b.d());
    } else if b.m() < a.m() {
        lemma_months_before(a.y(), b.m(), b.d(), a.m(), a.d());
    }
    Date::lemma_eq(a, b);
}

/// Day numbers of the years 0..=9999 lie well inside the range of
/// instants: their readings are at least a day away from either end.
pub proof fn lemma_day_number_bounds(d: Date)
    requires
        valid_ymd(d.y(), d.m(), d.d()),
        0 <= d.y() <= 9999,
    ensures
        -365 <= d.num() <= 3652059,
{
    lemma_day_in_year(d.y(), d.m(), d.d());
    lemma_years_before(d.y(), 10000);
    if 0 < d.y() {
        lemma_years_before(0, d.y());
    }
}

/// Week-1 Mondays are Mondays (day numbers of the form 7k + 1) and lie
/// within the six days before January 4th.
pub proof fn lemma_week1_monday(y: int)
    ensures
        iso_week1_monday(y) % 7 == 1,
        day_number(y, 1, 4) - 6 <= iso_week1_monday(y) <= day_number(y, 1, 4),
        day_number(y, 1, 4) == days_before_year(y) + 4,
{
}

/// Every date lies in exactly the ISO year `iso_year_of` names: at or
/// after its week-1 Monday and before the next one; that year is within
/// one of the calendar year and has 52 or 53 weeks.
pub proof fn lemma_iso_year_bounds(y: int, m: int, d: int)
    requires
        1 <= m <= 12,
        1 <= d <= days_in_month(y, m),
    ensures
        ({
            let n = day_number(y, m, d);
            let iy = iso_year_of(n, y);
            &&& y - 1 <= iy <= y + 1
            &&& iso_week1_monday(iy) <= n < iso_week1_monday(iy + 1)
            &&& 1 <= iso_week_of(n, y) <= iso_weeks_in(iy)
        }),
{
    let n = day_number(y, m, d);
    lemma_day_in_year(y, m, d);
    lemma_year_length(y - 1);
    lemma_year_length(y);
    lemma_year_length(y + 1);
    lemma_week1_monday(y - 1);
    lemma_week1_monday(y);
    lemma_week1_monday(y + 1);
    lemma_week1_monday(y + 2);
    let iy = iso_year_of(n, y);
    lemma_weeks_in_year(iy);
    let a = iso_week1_monday(iy);
    let b = iso_week1_monday(iy + 1);
    assert((b - a) % 7 == 0);
    assert(n - a <= b - a - 1);
    assert((n - a) / 7 <= (b - a) / 7 - 1);
}

/// An ISO year has 52 or 53 weeks, and consecutive week-1 Mondays are a
/// whole number of weeks apart.
pub proof fn lemma_weeks_in_year(y: int)
    ensures
        52 <= iso_weeks_in(y) <= 53,
        iso_week1_monday(y + 1) - iso_week1_monday(y) == 7 * iso_weeks_in(y),
{
    lemma_year_length(y);
    lemma_week1_monday(y);
    lemma_week1_monday(y + 1);
    let a = iso_week1_monday(y);
    let b = iso_week1_monday(y + 1);
    let k = (a - 1) / 7;
    let l = (b - 1) / 7;
    assert(a == 7 * k + 1);
    assert(b == 7 * l + 1);
    assert(b - a == 7 * (l - k));
    assert((b - a) / 7 == l - k);
    assert(359 <= b - a <= 372);
}

/// December 28th always falls in the last ISO week of its own year.
pub proof fn lemma_dec28_last_week(y: int)
    ensures
        iso_year_of(day_number(y, 12, 28), y) == y,
        iso_week_of(day_number(y, 12, 28), y) == iso_weeks_in(y),
{
    lemma_year_length(y);
    lemma_year_length(y + 1);
    lemma_week1_monday(y);
    lemma_week1_monday(y + 1);
    lemma_weeks_in_year(y);
    let n = day_number(y, 12, 28);
    assert(n == days_before_year(y + 1) - 3);
}

/// A calendar date (`chrono::NaiveDate`'s value, held as year/month/day).
#[derive(Clone, Copy, Debug, PartialEq, Eq, Structural, Hash, PartialOrd, Ord)]
pub struct Date {
    year: i32,
    month: u32,
    day: u32,
}

impl Date {
    #[verifier::type_invariant]
    spec fn inv(self) -> bool {
        valid_ymd(self.year as int, self.month as int, self.day as int)
    }

    /// `(year, month, day)`.
    pub closed spec fn ymd(self) -> (int, int, int) {
        (self.year as int, self.month as int, self.day as int)
    }

    pub open spec fn y(self) -> int {
        self.ymd().0
    }

    pub open spec fn m(self) -> int {
        self.ymd().1
    }

    pub open spec fn d(self) -> int {
        self.ymd().2
    }

    /// This date's day number.
    pub open spec fn num(self) -> int {
        day_number(self.y(), self.m(), self.d())
    }

    /// Every `Date` is a real calendar date.
    pub fn valid(&self)
        ensures
            valid_ymd(self.y(), self.m(), self.d()),
    {
        proof {
            use_type_invariant(self);
        }
    }

    /// Two dates with the same year, month and day are the same value.
    pub proof fn lemma_eq(a: Date, b: Date)
        ensures
            a.ymd() == b.ymd() <==> a == b,
    {
    }

    /// `NaiveDate::from_ymd_opt`: the date, when it exists.
    pub fn from_ymd_opt(year: i32, month: u32, day: u32) -> (r: Option<Date>)
        ensures
            r is Some <==> valid_ymd(year as int, month as int, day as int),
            r matches Some(d) ==> d.ymd() == (year as int, month as int, day as int),
    {
        if ymd_exists(year, month, day) {
            Some(Date { year, month, day })
        } else {
            None
        }
    }

    pub fn year(&self) -> (r: i32)
        ensures
            r as int == self.y(),
    {
        self.year
    }

    pub fn month(&self) -> (r: u32)
        ensures
            r as int == self.m(),
    {
        self.month
    }

    pub fn day(&self) -> (r: u32)
        ensures
            r as int == self.d(),
    {
        self.day
    }

    /// Chronological order.
    pub fn before(&self, other: &Date) -> (r: bool)
        ensures
            r == date_lt(*self, *other),
    {
        self.year < other.year || (self.year == other.year && (self.month < other.month || (
        self.month == other.month && self.day < other.day)))
    }
}

/// Chronological (year, month, day) order.
pub open spec fn date_lt(a: Date, b: Date) -> bool {
    a.y() < b.y() || (a.y() == b.y() && (a.m() < b.m() || (a.m() == b.m() && a.d() < b.d())))
}

/// Wall-clock hour and minute (`chrono::NaiveTime` at minute granularity).
#[derive(Clone, Copy, Debug, PartialEq, Eq, Structural, Hash, PartialOrd, Ord)]
pub struct Time {
    hour: u32,
    minute: u32,
}

impl Time {
    #[verifier::type_invariant]
    spec fn inv(self) -> bool {
        self.hour < 24 && self.minute < 60
    }

    pub closed spec fn hm(self) -> (int, int) {
        (self.hour as int, self.minute as int)
    }

    pub fn valid(&self)
        ensures
            0 <= self.hm().0 < 24,
            0 <= self.hm().1 < 60,
    {
        proof {
            use_type_invariant(self);
        }
    }

    /// `NaiveTime::from_hms_opt(hour, minute, 0)`.
    pub fn from_hm_opt(hour: u32, minute: u32) -> (r: Option<Time>)
        ensures
            r is Some <==> (hour < 24 && minute < 60),
            r matches Some(t) ==> t.hm() == (hour as int, minute as int),
    {
        if time_exists(hour, minute) {
            Some(Time { hour, minute })
        } else {
            None
        }
    }

    pub fn hour(&self) -> (r: u32)
        ensures
            r as int == self.hm().0,
    {
        self.hour
    }

    pub fn minute(&self) -> (r: u32)
        ensures
            r as int == self.hm().1,
    {
        self.minute
    }

    /// Earlier in the day.
    pub fn before(&self, other: &Time) -> (r: bool)
        ensures
            r == (self.hm().0 < other.hm().0 || (self.hm().0 == other.hm().0 && self.hm().1
                < other.hm().1)),
    {
        self.hour < other.hour || (self.hour == other.hour && self.minute < other.minute)
    }

    pub proof fn lemma_eq(a: Time, b: Time)
        ensures
            a.hm() == b.hm() <==> a == b,
    {
    }
}

/// `HH:MM`, both zero-padded.
pub open spec fn hm_text(h: int, m: int) -> Seq<char> {
    zero_padded(h as nat, 2) + seq![':'] + zero_padded(m as nat, 2)
}

/// Appends `t` as `HH:MM` (what `format("%H:%M")` writes).
pub fn push_time(s: &mut String, t: &Time)
    ensures
        final(s)@ == old(s)@ + hm_text(t.hm().0, t.hm().1),
{
    t.valid();
    push_zero_padded(s, t.hour() as u64, 2);
    push_char(s, ':');
    push_zero_padded(s, t.minute() as u64, 2);
    assert(s@ =~= old(s)@ + hm_text(t.hm().0, t.hm().1));
}

/// `NaiveDate::from_ymd_opt(y, m, d).is_some()`: whether the date exists.
/// Claims: true exactly for a real proleptic-Gregorian date whose year is
/// inside chrono's range.
#[verifier::external_body]
fn ymd_exists(y: i32, m: u32, d: u32) -> (r: bool)
    ensures
        r == valid_ymd(y as int, m as int, d as int),
{
    NaiveDate::from_ymd_opt(y, m, d).is_some()
}

/// `NaiveTime::from_hms_opt(h, m, 0).is_some()`. Claims: true exactly
/// when `h < 24` and `m < 60`.
#[verifier::external_body]
fn time_exists(h: u32, m: u32) -> (r: bool)
    ensures
        r == (h < 24 && m < 60),
{
    NaiveTime::from_hms_opt(h, m, 0).is_some()
}

/// `NaiveDate::checked_sub_days`. Claims: the date `n` days earlier,
/// `None` exactly when `n` exceeds `i32::MAX` or the result would fall
/// before chrono's first date.
#[verifier::external_body]
pub(crate) fn sub_days(d: &Date, n: u64) -> (r: Option<Date>)
    ensures
        r is Some <==> (n <= i32::MAX && d.num() - n >= min_day_number()),
        r matches Some(x) ==> x.num() == d.num() - n,
{
    let nd = NaiveDate::from_ymd_opt(d.year, d.month, d.day).unwrap();
    match nd.checked_sub_days(Days::new(n)) {
        Some(x) => Some(Date { year: x.year(), month: x.month(), day: x.day() }),
        None => None,
    }
}

/// `NaiveDate::checked_add_days`. Claims: the date `n` days later, `None`
/// exactly when `n` exceeds `i32::MAX` or the result would fall after
/// chrono's last date.
#[verifier::external_body]
pub(crate) fn add_days(d: &Date, n: u64) -> (r: Option<Date>)
    ensures
        r is Some <==> (n <= i32::MAX && d.num() + n <= max_day_number()),
        r matches Some(x) ==> x.num() == d.num() + n,
{
    let nd = NaiveDate::from_ymd_opt(d.year, d.month, d.day).unwrap();
    match nd.checked_add_days(Days::new(n)) {
        Some(x) => Some(Date { year: x.year(), month: x.month(), day: x.day() }),
        None => None,
    }
}

/// `Datelike::weekday().number_from_monday()`. Claims: 1 for Monday
/// through 7 for Sunday, counted from 0001-01-01 being a Monday.
#[verifier::external_body]
pub(crate) fn weekday_number(d: &Date) -> (r: u32)
    ensures
        r as int == weekday_of(d.num()),
{
    NaiveDate::from_ymd_opt(d.year, d.month, d.day).unwrap().weekday().number_from_monday()
}

/// `Datelike::iso_week()`, as `(ISO year, ISO week)`. Claims: the ISO 8601
/// week date of `d`: the week is counted from the Monday of the week that
/// holds January 4th of the ISO year.
#[verifier::external_body]
pub(crate) fn iso_week(d: &Date) -> (r: (i32, u32))
    ensures
        r.0 as int == iso_year_of(d.num(), d.y()),
        r.1 as int == iso_week_of(d.num(), d.y()),
{
    let w = NaiveDate::from_ymd_opt(d.year, d.month, d.day).unwrap().iso_week();
    (w.year(), w.week())
}

/// `NaiveDate::from_isoywd_opt(year, week, Weekday::Mon)`. Claims: the
/// Monday of that ISO week, `None` exactly when the week does not exist in
/// that ISO year or the Monday lies outside chrono's range.
#[verifier::external_body]
pub(crate) fn iso_week_monday(year: i32, week: u32) -> (r: Option<Date>)
    requires
        CHRONO_MIN_YEAR <= year <= CHRONO_MAX_YEAR,
    ensures
        r is Some <==> (1 <= week <= iso_weeks_in(year as int) && min_day_number()
            <= iso_week1_monday(year as int) + 7 * (week - 1) <= max_day_number()),
        r matches Some(x) ==> x.num() == iso_week1_monday(year as int) + 7 * (week - 1),
{
    match NaiveDate::from_isoywd_opt(year, week, Weekday::Mon) {
        Some(x) => Some(Date { year: x.year(), month: x.month(), day: x.day() }),
        None => None,
    }
}

/// `NaiveDate::format("%Y-%m-%d")`. Claims: the zero-padded `YYYY-MM-DD`
/// text (a year outside 0..=9999 carries its sign).
#[verifier::external_body]
pub(crate) fn format_ymd(d: &Date) -> (r: String)
    ensures
        r@ == ymd_text(d.y(), d.m(), d.d()),
{
    NaiveDate::from_ymd_opt(d.year, d.month, d.day).unwrap().format("%Y-%m-%d").to_string()
}

/// `chrono`: `DateTime::<Utc>::from_timestamp(at, 0)` shown in the
/// machine's local time zone (`with_timezone(&Local)`), then its `hour()`
/// and `minute()`. Claims only the ranges `NaiveTime` documents; which
/// wall-clock time comes back depends on the machine's time zone and is
/// not stated.
#[verifier::external_body]
fn local_hm(at: i64) -> (r: (u32, u32))
    requires
        crate::storage::valid_instant(at as int),
    ensures
        r.0 < 24,
        r.1 < 60,
{
    let t = chrono::DateTime::from_timestamp(at, 0).unwrap().with_timezone(&chrono::Local).time();
    (chrono::Timelike::hour(&t), chrono::Timelike::minute(&t))
}

/// Local wall-clock time of an instant (seconds since the Unix epoch).
/// The reading depends on the machine's time zone, whose offset may be
/// anything under a day, so every time of day is a possible result for a
/// given instant; the contract states no more than the type does.
pub(crate) fn local_time_of(at: i64) -> (r: Time)
    requires
        crate::storage::valid_instant(at as int),
{
    let (h, m) = local_hm(at);
    Time::from_hm_opt(h, m).unwrap()
}

/// Day number of 1970-01-01, the Unix epoch.
pub const EPOCH_DAY: i64 = 719163;

/// The instant (seconds since the Unix epoch) at which the wall clock reads
/// `date` `time` in UTC.
pub open spec fn naive_instant(date: Date, time: Time) -> int {
    (date.num() - EPOCH_DAY) * 86400 + time.hm().0 * 3600 + time.hm().1 * 60
}

/// The day number of the UTC date an instant falls on.
pub open spec fn utc_day(at: int) -> int {
    EPOCH_DAY + at / 86400
}

/// What the machine's time zone makes of a local wall-clock reading.
#[derive(Debug, Clone, Copy, PartialEq, Eq)]
pub enum LocalInstants {
    /// No instant shows that reading (a spring-forward gap).
    Nonexistent,
    /// Exactly one instant does.
    Single(i64),
    /// Two instants do (a fall-back repeat): the earlier one first.
    Ambiguous(i64, i64),
}

/// `chrono`: `Local.from_local_datetime(date.and_hms(h, m, 0))`, each
/// `LocalResult` variant carried over with its instants as Unix seconds.
/// Claims only that every instant lies less than a day from the same
/// reading taken as UTC (chrono's offsets are below 24 hours); which
/// variant comes back depends on the machine's time zone.
#[verifier::external_body]
pub(crate) fn local_instants(date: &Date, time: &Time) -> (r: LocalInstants)
    ensures
        r matches LocalInstants::Single(a) ==> naive_instant(*date, *time) - 86400 < a
            < naive_instant(*date, *time) + 86400,
        r matches LocalInstants::Ambiguous(a, b) ==> naive_instant(*date, *time) - 86400 < a
            < naive_instant(*date, *time) + 86400 && naive_instant(*date, *time) - 86400 < b
            < naive_instant(*date, *time) + 86400,
{
    let naive = NaiveDate::from_ymd_opt(date.year, date.month, date.day)
        .unwrap()
        .and_hms_opt(time.hour, time.minute, 0)
        .unwrap();
    match chrono::TimeZone::from_local_datetime(&chrono::Local, &naive) {
        chrono::LocalResult::Single(dt) => LocalInstants::Single(dt.timestamp()),
        chrono::LocalResult::Ambiguous(a, b) => LocalInstants::Ambiguous(a.timestamp(), b.timestamp()),
        chrono::LocalResult::None => LocalInstants::Nonexistent,
    }
}

/// `chrono`: `DateTime::<Utc>::from_timestamp(at, 0)` in the machine's local
/// time zone, its `date_naive()`. Claims only that it is the UTC date or a
/// neighbour of it (chrono's offsets are below 24 hours).
#[verifier::external_body]
pub(crate) fn local_date_of(at: i64) -> (r: Date)
    requires
        MIN_UTC_SAFE <= at <= MAX_UTC_SAFE,
    ensures
        utc_day(at as int) - 1 <= r.num() <= utc_day(at as int) + 1,
{
    let d = chrono::DateTime::from_timestamp(at, 0).unwrap().with_timezone(&chrono::Local).date_naive();
    Date { year: d.year(), month: d.month(), day: d.day() }
}

/// Instants at least a day inside chrono's range: their local date is a
/// representable date in every time zone.
pub const MIN_UTC_SAFE: i64 = -8334601142400;

/// See `MIN_UTC_SAFE`.
pub const MAX_UTC_SAFE: i64 = 8210266790399;

/// What `NaiveDate::parse_from_str(s, "%Y-%m-%d")` reads from a text, as
/// `(year, month, day)`.
pub uninterp spec fn ymd_parse(s: Seq<char>) -> Option<(int, int, int)>;

/// `chrono`: `NaiveDate::parse_from_str(s, "%Y-%m-%d")`. Claims only that
/// the result is a function of the text (named `ymd_parse`); chrono's
/// parsing rules are not restated.
#[verifier::external_body]
pub(crate) fn parse_ymd_text(s: &str) -> (r: Option<Date>)
    ensures
        match r {
            Some(d) => ymd_parse(s@) == Some(d.ymd()),
            None => ymd_parse(s@) is None,
        },
{
    match NaiveDate::parse_from_str(s, "%Y-%m-%d") {
        Ok(d) => Some(Date { year: d.year(), month: d.month(), day: d.day() }),
        Err(_) => None,
    }
}

proof fn lemma_53_weeks_arith(a: int, l: int)
    requires
        0 <= a < 7,
        0 <= l <= 1,
    ensures
        (365 + l + a - (a + 1 + l) % 7) / 7 == 53 <==> ((a + 4 + l) % 7 + 1 == 4 || (l == 1 && (a
            + 4 + l) % 7 + 1 == 5)),
{
    if l == 0 {
        if a == 0 {
        } else if a == 1 {
        } else if a == 2 {
        } else if a == 3 {
        } else if a == 4 {
        } else if a == 5 {
        } else {
        }
    } else {
        if a == 0 {
        } else if a == 1 {
        } else if a == 2 {
        } else if a == 3 {
        } else if a == 4 {
        } else if a == 5 {
        } else {
        }
    }
}

proof fn lemma_shift_weekday(n: int, k: int)
    ensures
        (n + k - 1) % 7 == ((n - 1) % 7 + k) % 7,
{
}

/// An ISO year has 53 weeks exactly when its December 31st is a
/// Thursday, or a Friday in a leap year (equivalently, when the calendar
/// year holds 53 Thursdays).
pub proof fn law_53_week_years(y: int)
    ensures
        iso_weeks_in(y) == 53 <==> (weekday_of(day_number(y, 12, 31)) == 4 || (is_leap_year(y)
            && weekday_of(day_number(y, 12, 31)) == 5)),
{
    lemma_year_length(y);
    let l = leap_days(y);
    let j4 = day_number(y, 1, 4);
    let j4n = day_number(y + 1, 1, 4);
    let dec31 = day_number(y, 12, 31);
    assert(j4 == days_before_year(y) + 4);
    assert(j4n == j4 + 365 + l);
    assert(dec31 == j4 + 361 + l);
    let a = (j4 - 1) % 7;
    lemma_shift_weekday(j4, 365 + l);
    lemma_shift_weekday(j4, 361 + l);
    assert((j4n - 1) % 7 == (a + 1 + l) % 7);
    assert((dec31 - 1) % 7 == (a + 4 + l) % 7);
    assert(iso_week1_monday(y) == j4 - a);
    assert(iso_week1_monday(y + 1) == j4n - (a + 1 + l) % 7);
    assert(iso_weeks_in(y) == (365 + l + a - (a + 1 + l) % 7) / 7);
    lemma_53_weeks_arith(a, l);
}

} // verus!
