//! Calendar dates (`DATE`) and ISO week ids (`WEEK_ID`): parsing,
//! validation, formatting and week iteration.

use crate::calendar::{
    date_lt, days_before_year, lemma_date_order, lemma_day_in_year, lemma_years_before,
    format_ymd, iso_week, iso_week1_monday, iso_week_monday, iso_week_of,
    iso_weeks_in, iso_year_of, lemma_dec28_last_week, lemma_iso_year_bounds, lemma_weeks_in_year,
    max_day_number, min_day_number, sub_days, add_days, valid_ymd, weekday_number, weekday_of,
    ymd_text, Date, CHRONO_MAX_YEAR, CHRONO_MIN_YEAR,
};
use crate::week::{law_series_walks_the_week_range, week_at, weeks_between};
use crate::text::{
    all_digits, decimal, digits_value, lemma_digits_text_order, lemma_text_lt_concat, text_lt, find_char, first_index, is_digit,
    lemma_zero_padded_reads_back, pow10, push_char, push_decimal, push_str, push_zero_padded,
    zero_padded,
};
use vstd::prelude::*;

verus! {

// ---------------------------------------------------------------------------
// Errors
// ---------------------------------------------------------------------------

/// Which of the two argument kinds failed to parse.
#[derive(Debug, Clone, Copy, PartialEq, Eq, Structural)]
pub enum ArgKind {
    Date,
    WeekId,
}

/// Machine-inspectable cause of a rejected `DATE` / `WEEK_ID`.
#[derive(Debug, Clone, Copy, PartialEq, Eq, Structural)]
pub enum Cause {
    /// Did not match the argument's grammar at all.
    Shape,
    /// Matched the grammar but a component is outside its legal range
    /// (week `0`, a year outside `1000..=9999`, an unrepresentable offset).
    OutOfRange,
    /// Well-shaped `YYYY-MM-DD` that is not a real calendar date.
    NoSuchCalendarDate,
    /// Well-shaped week whose number does not exist in that ISO year;
    /// carries the year checked against and that year's real week count.
    NoSuchIsoWeek { iso_year: i32, weeks_in_year: u32 },
    /// A resolved `DATE` is later than today.
    Future,
}

/// A hard error at the input edge.
#[derive(Debug, Clone, PartialEq, Eq)]
pub struct DateWeekError {
    pub arg: ArgKind,
    /// The user's input, verbatim and untruncated.
    pub input: String,
    pub cause: Cause,
}

impl DateWeekError {
    pub fn new(arg: ArgKind, input: &str, cause: Cause) -> (r: Self)
        ensures
            r.arg == arg,
            r.input@ == input@,
            r.cause == cause,
    {
        DateWeekError { arg, input: input.to_owned(), cause }
    }

    /// The one-line message shown on stderr.
    pub fn message(&self) -> (r: String)
        ensures
            r@ == date_week_error_text(self.arg, self.input@, self.cause),
    {
        let mut s = String::new();
        push_str(&mut s, "invalid ");
        match self.arg {
            ArgKind::Date => push_str(&mut s, "DATE"),
            ArgKind::WeekId => push_str(&mut s, "WEEK_ID"),
        }
        push_str(&mut s, " \"");
        push_str(&mut s, self.input.as_str());
        push_str(&mut s, "\": ");
        match (self.arg, self.cause) {
            (ArgKind::Date, Cause::Shape) => push_str(&mut s, "expected YYYY-MM-DD or -N (N >= 1)"),
            (ArgKind::WeekId, Cause::Shape) => push_str(&mut s, "expected YYYY-WW or WW"),
            (ArgKind::Date, Cause::OutOfRange) => push_str(&mut s, "date offset is out of range"),
            (_, Cause::OutOfRange) => push_str(&mut s, "week number must be 1 or greater"),
            (_, Cause::NoSuchCalendarDate) => push_str(&mut s, "not a real calendar date"),
            (_, Cause::NoSuchIsoWeek { iso_year, weeks_in_year }) => {
                push_int(&mut s, iso_year);
                push_str(&mut s, " has only ");
                push_decimal(&mut s, weeks_in_year as u64);
                push_str(&mut s, " ISO weeks");
            },
            (_, Cause::Future) => push_str(&mut s, "date is in the future"),
        }
        s
    }
}

/// An integer in decimal with a leading `-` when negative.
pub open spec fn int_text(i: int) -> Seq<char> {
    if i < 0 {
        seq!['-'] + decimal((-i) as nat)
    } else {
        decimal(i as nat)
    }
}

fn push_int(s: &mut String, i: i32)
    ensures
        final(s)@ == old(s)@ + int_text(i as int),
{
    if i < 0 {
        push_char(s, '-');
        push_decimal(s, (-(i as i64)) as u64);
    } else {
        push_decimal(s, i as u64);
    }
    assert(s@ =~= old(s)@ + int_text(i as int));
}

pub open spec fn cause_text(arg: ArgKind, cause: Cause) -> Seq<char> {
    match (arg, cause) {
        (ArgKind::Date, Cause::Shape) => "expected YYYY-MM-DD or -N (N >= 1)"@,
        (ArgKind::WeekId, Cause::Shape) => "expected YYYY-WW or WW"@,
        (ArgKind::Date, Cause::OutOfRange) => "date offset is out of range"@,
        (_, Cause::OutOfRange) => "week number must be 1 or greater"@,
        (_, Cause::NoSuchCalendarDate) => "not a real calendar date"@,
        (_, Cause::NoSuchIsoWeek { iso_year, weeks_in_year }) => int_text(iso_year as int)
            + " has only "@ + decimal(weeks_in_year as nat) + " ISO weeks"@,
        (_, Cause::Future) => "date is in the future"@,
    }
}

/// `invalid DATE "<input>": <cause>` (or `WEEK_ID`).
pub open spec fn date_week_error_text(arg: ArgKind, input: Seq<char>, cause: Cause) -> Seq<char> {
    "invalid "@ + (match arg {
        ArgKind::Date => "DATE"@,
        ArgKind::WeekId => "WEEK_ID"@,
    }) + " \""@ + input + "\": "@ + cause_text(arg, cause)
}

// ---------------------------------------------------------------------------
// DATE
// ---------------------------------------------------------------------------

/// `s` is exactly `dddd-dd-dd` in ASCII digits.
pub open spec fn ymd_shape(s: Seq<char>) -> bool {
    &&& s.len() == 10
    &&& s[4] == '-'
    &&& s[7] == '-'
    &&& forall|i: int| 0 <= i < 10 && i != 4 && i != 7 ==> is_digit(#[trigger] s[i])
}

/// The `(year, month, day)` numbers a `dddd-dd-dd` input spells.
pub open spec fn ymd_fields(s: Seq<char>) -> (int, int, int) {
    (
        digits_value(s.subrange(0, 4)),
        digits_value(s.subrange(5, 7)),
        digits_value(s.subrange(8, 10)),
    )
}

/// What `parse_date` decides: the date's `(y, m, d)` or the cause.
pub open spec fn parse_date_outcome(s: Seq<char>) -> Result<(int, int, int), Cause> {
    if !ymd_shape(s) {
        Err(Cause::Shape)
    } else {
        let (y, m, d) = ymd_fields(s);
        if valid_ymd(y, m, d) {
            Ok((y, m, d))
        } else {
            Err(Cause::NoSuchCalendarDate)
        }
    }
}

/// Is `s` exactly `dddd-dd-dd` in ASCII digits?
fn has_ymd_shape(s: &str) -> (r: bool)
    ensures
        r == ymd_shape(s@),
{
    if s.unicode_len() != 10 {
        return false;
    }
    let mut i: usize = 0;
    while i < 10
        invariant
            s@.len() == 10,
            i <= 10,
            forall|j: int| 0 <= j < i && j != 4 && j != 7 ==> is_digit(#[trigger] s@[j]),
            i > 4 ==> s@[4] == '-',
            i > 7 ==> s@[7] == '-',
        decreases 10 - i,
    {
        let c = s.get_char(i);
        if i == 4 || i == 7 {
            if c != '-' {
                return false;
            }
        } else if !('0' <= c && c <= '9') {
            return false;
        }
        i = i + 1;
    }
    true
}

/// Value of a short run of ASCII digits (at most 4).
fn small_value(s: &str, from: usize, to: usize) -> (r: u32)
    requires
        from <= to <= s@.len(),
        to - from <= 4,
        all_digits(s@.subrange(from as int, to as int)),
    ensures
        r as int == digits_value(s@.subrange(from as int, to as int)),
        r < 10000,
{
    let mut v: u32 = 0;
    let mut i: usize = from;
    while i < to
        invariant
            from <= i <= to,
            to <= s@.len(),
            to - from <= 4,
            all_digits(s@.subrange(from as int, to as int)),
            v as int == digits_value(s@.subrange(from as int, i as int)),
            v < (if i - from == 0 {
                1int
            } else if i - from == 1 {
                10int
            } else if i - from == 2 {
                100int
            } else if i - from == 3 {
                1000int
            } else {
                10000int
            }),
        decreases to - i,
    {
        let c = s.get_char(i);
        proof {
            assert(s@.subrange(from as int, to as int)[i - from] == c);
            assert(s@.subrange(from as int, i + 1).drop_last() =~= s@.subrange(from as int, i as int));
        }
        let d = c as u32 - '0' as u32;
        v = v * 10 + d;
        i = i + 1;
    }
    v
}

/// Parse a `DATE` argument: strictly zero-padded `YYYY-MM-DD`.
pub fn parse_date(s: &str) -> (r: Result<Date, DateWeekError>)
    ensures
        r matches Ok(d) ==> parse_date_outcome(s@) == Ok::<(int, int, int), Cause>(d.ymd()),
        r matches Err(e) ==> e.arg == ArgKind::Date && e.input@ == s@ && parse_date_outcome(s@)
            == Err::<(int, int, int), Cause>(e.cause),
{
    if !has_ymd_shape(s) {
        return Err(DateWeekError::new(ArgKind::Date, s, Cause::Shape));
    }
    proof {
        assert forall|i: int| 0 <= i < 4 implies is_digit(#[trigger] s@.subrange(0, 4)[i]) by {
            assert(s@.subrange(0, 4)[i] == s@[i]);
        };
        assert forall|i: int| 0 <= i < 2 implies is_digit(#[trigger] s@.subrange(5, 7)[i]) by {
            assert(s@.subrange(5, 7)[i] == s@[i + 5]);
        };
        assert forall|i: int| 0 <= i < 2 implies is_digit(#[trigger] s@.subrange(8, 10)[i]) by {
            assert(s@.subrange(8, 10)[i] == s@[i + 8]);
        };
    }
    let year = small_value(s, 0, 4);
    let month = small_value(s, 5, 7);
    let day = small_value(s, 8, 10);
    match Date::from_ymd_opt(year as i32, month, day) {
        Some(d) => Ok(d),
        None => Err(DateWeekError::new(ArgKind::Date, s, Cause::NoSuchCalendarDate)),
    }
}

/// `-N`: a `-` followed by one or more ASCII digits.
pub open spec fn is_relative(s: Seq<char>) -> bool {
    s.len() >= 2 && s[0] == '-' && all_digits(s.drop_first())
}

/// `resolve_date(s, today)` succeeds with `d`.
pub open spec fn resolves_to(s: Seq<char>, today: Date, d: Date) -> bool {
    if is_relative(s) {
        let n = digits_value(s.drop_first());
        &&& 0 < n <= i32::MAX
        &&& d.num() == today.num() - n
        &&& 1000 <= d.y() <= 9999
    } else {
        parse_date_outcome(s) == Ok::<(int, int, int), Cause>(d.ymd())
    }
}

/// `resolve_date(s, today)` fails with `cause`.
pub open spec fn resolve_fails(s: Seq<char>, today: Date, cause: Cause) -> bool {
    if is_relative(s) {
        let n = digits_value(s.drop_first());
        if n > u64::MAX {
            cause == Cause::OutOfRange
        } else if n == 0 {
            cause == Cause::Shape
        } else if !(n <= i32::MAX && today.num() - n >= min_day_number()) {
            cause == Cause::OutOfRange
        } else {
            cause == Cause::OutOfRange && !(days_before_year(1000) < today.num() - n
                <= days_before_year(10000))
        }
    } else {
        parse_date_outcome(s) == Err::<(int, int, int), Cause>(cause)
    }
}

/// A real date whose year lies outside 1000..=9999 has a day number
/// outside the span those years cover.
proof fn lemma_year_outside_span(d: Date)
    requires
        valid_ymd(d.y(), d.m(), d.d()),
        !(1000 <= d.y() <= 9999),
    ensures
        !(days_before_year(1000) < d.num() <= days_before_year(10000)),
{
    lemma_day_in_year(d.y(), d.m(), d.d());
    if d.y() < 999 {
        lemma_years_before(d.y(), 1000);
    } else if d.y() > 10000 {
        lemma_years_before(9999, d.y());
    }
}

/// Core `DATE` resolver: absolute `YYYY-MM-DD`, or `-N` (N >= 1, leading
/// zeros tolerated) meaning N days before `today`. A `-N` that lands
/// outside years 1000..=9999 is out of range, the same domain the
/// absolute form has. Future dates are accepted here.
pub fn resolve_date(s: &str, today: &Date) -> (r: Result<Date, DateWeekError>)
    ensures
        r matches Ok(d) ==> resolves_to(s@, *today, d),
        r matches Err(e) ==> e.arg == ArgKind::Date && e.input@ == s@ && resolve_fails(
            s@,
            *today,
            e.cause,
        ),
{
    let n = s.unicode_len();
    if n >= 2 && s.get_char(0) == '-' {
        let digits = s.substring_char(1, n);
        assert(digits@ =~= s@.drop_first());
        let mut all = true;
        let mut i: usize = 0;
        while i < n - 1
            invariant
                digits@.len() == n - 1,
                i <= n - 1,
                all == (forall|j: int| 0 <= j < i ==> is_digit(#[trigger] digits@[j])),
            decreases n - 1 - i,
        {
            let c = digits.get_char(i);
            if !('0' <= c && c <= '9') {
                all = false;
            }
            i = i + 1;
        }
        if all {
            let count = match crate::text::parse_digits_u64(digits) {
                Some(v) => v,
                None => return Err(DateWeekError::new(ArgKind::Date, s, Cause::OutOfRange)),
            };
            if count == 0 {
                return Err(DateWeekError::new(ArgKind::Date, s, Cause::Shape));
            }
            let resolved = match sub_days(today, count) {
                Some(d) => d,
                None => return Err(DateWeekError::new(ArgKind::Date, s, Cause::OutOfRange)),
            };
            let year = resolved.year();
            resolved.valid();
            if !(1000 <= year && year <= 9999) {
                proof {
                    lemma_year_outside_span(resolved);
                }
                return Err(DateWeekError::new(ArgKind::Date, s, Cause::OutOfRange));
            }
            return Ok(resolved);
        }
    }
    parse_date(s)
}

/// `resolve_date` plus the rejection of a date later than `today` (what
/// recording a punch or note needs).
pub fn resolve_future_checked_date(s: &str, today: &Date) -> (r: Result<Date, DateWeekError>)
    ensures
        r matches Ok(d) ==> resolves_to(s@, *today, d) && !date_lt(*today, d),
        r matches Err(e) ==> e.arg == ArgKind::Date && e.input@ == s@ && (resolve_fails(
            s@,
            *today,
            e.cause,
        ) || (e.cause == Cause::Future && !is_relative(s@) && exists|d: Date|
            resolves_to(s@, *today, d) && #[trigger] date_lt(*today, d))),
{
    let date = resolve_date(s, today)?;
    today.valid();
    date.valid();
    if today.before(&date) {
        proof {
            if is_relative(s@) {
                lemma_date_order(*today, date);
            }
        }
        return Err(DateWeekError::new(ArgKind::Date, s, Cause::Future));
    }
    Ok(date)
}

/// Canonical storage/display form: `YYYY-MM-DD`.
pub fn format_date(d: &Date) -> (r: String)
    ensures
        r@ == ymd_text(d.y(), d.m(), d.d()),
{
    format_ymd(d)
}

/// Three-letter English weekday name, 1 = Monday.
pub open spec fn weekday_abbrev_text(w: int) -> Seq<char> {
    if w == 1 {
        "Mon"@
    } else if w == 2 {
        "Tue"@
    } else if w == 3 {
        "Wed"@
    } else if w == 4 {
        "Thu"@
    } else if w == 5 {
        "Fri"@
    } else if w == 6 {
        "Sat"@
    } else {
        "Sun"@
    }
}

/// Full English weekday name, 1 = Monday.
pub open spec fn weekday_full_text(w: int) -> Seq<char> {
    if w == 1 {
        "Monday"@
    } else if w == 2 {
        "Tuesday"@
    } else if w == 3 {
        "Wednesday"@
    } else if w == 4 {
        "Thursday"@
    } else if w == 5 {
        "Friday"@
    } else if w == 6 {
        "Saturday"@
    } else {
        "Sunday"@
    }
}

pub(crate) fn weekday_abbrev(w: u32) -> (r: &'static str)
    ensures
        r@ == weekday_abbrev_text(w as int),
{
    if w == 1 {
        "Mon"
    } else if w == 2 {
        "Tue"
    } else if w == 3 {
        "Wed"
    } else if w == 4 {
        "Thu"
    } else if w == 5 {
        "Fri"
    } else if w == 6 {
        "Sat"
    } else {
        "Sun"
    }
}

/// The status header form: `Thu 2026-02-12`.
pub fn format_date_with_weekday(d: &Date) -> (r: String)
    ensures
        r@ == weekday_abbrev_text(weekday_of(d.num())) + seq![' '] + ymd_text(d.y(), d.m(), d.d()),
{
    let mut s = String::new();
    push_str(&mut s, weekday_abbrev(weekday_number(d)));
    push_char(&mut s, ' ');
    let t = format_date(d);
    push_str(&mut s, t.as_str());
    s
}

/// `Thursday` -- the headline's "left by end of <weekday>" word.
pub fn format_weekday_full(d: &Date) -> (r: String)
    ensures
        r@ == weekday_full_text(weekday_of(d.num())),
{
    let w = weekday_number(d);
    let name = if w == 1 {
        "Monday"
    } else if w == 2 {
        "Tuesday"
    } else if w == 3 {
        "Wednesday"
    } else if w == 4 {
        "Thursday"
    } else if w == 5 {
        "Friday"
    } else if w == 6 {
        "Saturday"
    } else {
        "Sunday"
    };
    name.to_owned()
}

// ---------------------------------------------------------------------------
// WeekId
// ---------------------------------------------------------------------------

/// Smallest year a `WEEK_ID` may name.
pub const MIN_YEAR: i32 = 1000;

/// Largest year a `WEEK_ID` may name.
pub const MAX_YEAR: i32 = 9999;

/// Number of ISO weeks in an ISO year: always 52 or 53. Read off the week
/// of December 28th, which always falls in the last ISO week of its year.
pub fn iso_weeks_in_year(iso_year: i32) -> (r: u32)
    requires
        CHRONO_MIN_YEAR <= iso_year <= CHRONO_MAX_YEAR,
    ensures
        r as int == iso_weeks_in(iso_year as int),
        52 <= r <= 53,
{
    proof {
        lemma_dec28_last_week(iso_year as int);
        lemma_weeks_in_year(iso_year as int);
    }
    match Date::from_ymd_opt(iso_year, 12, 28) {
        Some(dec28) => {
            let (_y, w) = iso_week(&dec28);
            w
        },
        None => 0,
    }
}

/// An ISO-8601 week: (ISO year, week number), Monday-start.
#[derive(Debug, Clone, Copy, PartialEq, Eq, Structural, PartialOrd, Ord, Hash)]
pub struct WeekId {
    iso_year: i32,
    week: u8,
}

/// Chronological order of `(year, week)` pairs.
pub open spec fn yw_lt(a: (int, int), b: (int, int)) -> bool {
    a.0 < b.0 || (a.0 == b.0 && a.1 < b.1)
}

/// Where a `WeekId` can come from: a real ISO week whose year is within
/// one of chrono's calendar-year range.
pub open spec fn valid_week(y: int, w: int) -> bool {
    &&& CHRONO_MIN_YEAR - 1 <= y <= CHRONO_MAX_YEAR + 1
    &&& 1 <= w <= iso_weeks_in(y)
}

/// The week after `(y, w)`.
pub open spec fn next_yw(yw: (int, int)) -> (int, int) {
    if yw.1 < iso_weeks_in(yw.0) {
        (yw.0, yw.1 + 1)
    } else {
        (yw.0 + 1, 1)
    }
}

/// The week before `(y, w)`.
pub open spec fn prev_yw(yw: (int, int)) -> (int, int) {
    if yw.1 > 1 {
        (yw.0, yw.1 - 1)
    } else {
        (yw.0 - 1, iso_weeks_in(yw.0 - 1))
    }
}

/// `YYYY-WW`, year zero-padded to four characters (sign included), week
/// to two.
pub open spec fn week_key_text(y: int, w: int) -> Seq<char> {
    (if y < 0 {
        seq!['-'] + zero_padded((-y) as nat, 3)
    } else {
        zero_padded(y as nat, 4)
    }) + seq!['-'] + zero_padded(w as nat, 2)
}

impl WeekId {
    #[verifier::type_invariant]
    spec fn inv(self) -> bool {
        valid_week(self.iso_year as int, self.week as int)
    }

    /// `(ISO year, week)`.
    pub closed spec fn yw(self) -> (int, int) {
        (self.iso_year as int, self.week as int)
    }

    pub fn valid(&self)
        ensures
            valid_week(self.yw().0, self.yw().1),
    {
        proof {
            use_type_invariant(self);
        }
    }

    pub proof fn lemma_eq(a: WeekId, b: WeekId)
        ensures
            a.yw() == b.yw() <==> a == b,
    {
    }

    /// Validated constructor. `input` only populates the error's `input`.
    pub fn new(iso_year: i32, week: u32, input: &str) -> (r: Result<WeekId, DateWeekError>)
        ensures
            r matches Ok(w) ==> w.yw() == (iso_year as int, week as int),
            r is Ok <==> (week != 0 && MIN_YEAR <= iso_year <= MAX_YEAR && week <= iso_weeks_in(
                iso_year as int,
            )),
            r matches Err(e) ==> e.arg == ArgKind::WeekId && e.input@ == input@ && (if week == 0
                || !(MIN_YEAR <= iso_year <= MAX_YEAR) {
                e.cause == Cause::OutOfRange
            } else {
                e.cause == (Cause::NoSuchIsoWeek {
                    iso_year,
                    weeks_in_year: iso_weeks_in(iso_year as int) as u32,
                })
            }),
    {
        if week == 0 || !(MIN_YEAR <= iso_year && iso_year <= MAX_YEAR) {
            return Err(DateWeekError::new(ArgKind::WeekId, input, Cause::OutOfRange));
        }
        let weeks_in_year = iso_weeks_in_year(iso_year);
        if week > weeks_in_year {
            return Err(
                DateWeekError::new(ArgKind::WeekId, input, Cause::NoSuchIsoWeek { iso_year, weeks_in_year }),
            );
        }
        Ok(WeekId { iso_year, week: week as u8 })
    }

    /// The ISO week a date belongs to (every date belongs to exactly one).
    pub fn from_date(date: &Date) -> (r: WeekId)
        ensures
            r.yw() == (iso_year_of(date.num(), date.y()), iso_week_of(date.num(), date.y())),
    {
        date.valid();
        proof {
            lemma_iso_year_bounds(date.y(), date.m(), date.d());
            lemma_weeks_in_year(iso_year_of(date.num(), date.y()));
        }
        let (y, w) = iso_week(date);
        WeekId { iso_year: y, week: w as u8 }
    }

    /// The ISO week containing `today`.
    pub fn current(today: &Date) -> (r: WeekId)
        ensures
            r.yw() == (iso_year_of(today.num(), today.y()), iso_week_of(today.num(), today.y())),
    {
        Self::from_date(today)
    }

    pub fn iso_year(&self) -> (r: i32)
        ensures
            r as int == self.yw().0,
    {
        self.iso_year
    }

    pub fn week(&self) -> (r: u32)
        ensures
            r as int == self.yw().1,
    {
        self.week as u32
    }

    /// Chronological order.
    pub fn before(&self, other: &WeekId) -> (r: bool)
        ensures
            r == yw_lt(self.yw(), other.yw()),
    {
        self.iso_year < other.iso_year || (self.iso_year == other.iso_year && self.week
            < other.week)
    }

    /// The storage form `YYYY-WW` (week zero-padded).
    pub fn to_key(&self) -> (r: String)
        ensures
            r@ == week_key_text(self.yw().0, self.yw().1),
    {
        let mut s = String::new();
        if self.iso_year < 0 {
            push_char(&mut s, '-');
            push_zero_padded(&mut s, (-(self.iso_year as i64)) as u64, 3);
        } else {
            push_zero_padded(&mut s, self.iso_year as u64, 4);
        }
        push_char(&mut s, '-');
        push_zero_padded(&mut s, self.week as u64, 2);
        assert(s@ =~= week_key_text(self.yw().0, self.yw().1));
        s
    }

    /// Same text as `to_key` (the display form).
    pub fn to_string(&self) -> (r: String)
        ensures
            r@ == week_key_text(self.yw().0, self.yw().1),
    {
        self.to_key()
    }

    /// Strict inverse of `to_key`: only zero-padded `YYYY-WW` is accepted.
    pub fn from_key(s: &str) -> (r: Result<WeekId, DateWeekError>)
        ensures
            r matches Ok(w) ==> key_shape(s@) && w.yw() == key_fields(s@),
            r matches Err(e) ==> e.arg == ArgKind::WeekId && e.input@ == s@ && (if !key_shape(
                s@,
            ) {
                e.cause == Cause::Shape
            } else {
                let (y, w) = key_fields(s@);
                week_rejection(y, w) == Some(e.cause)
            }),
            r is Ok <==> key_shape(s@) && week_rejection(key_fields(s@).0, key_fields(s@).1) is None,
    {
        if s.unicode_len() != 7 {
            return Err(DateWeekError::new(ArgKind::WeekId, s, Cause::Shape));
        }
        let mut i: usize = 0;
        while i < 7
            invariant
                s@.len() == 7,
                i <= 7,
                forall|j: int| 0 <= j < i && j != 4 ==> is_digit(#[trigger] s@[j]),
                i > 4 ==> s@[4] == '-',
            decreases 7 - i,
        {
            let c = s.get_char(i);
            if i == 4 {
                if c != '-' {
                    return Err(DateWeekError::new(ArgKind::WeekId, s, Cause::Shape));
                }
            } else if !('0' <= c && c <= '9') {
                return Err(DateWeekError::new(ArgKind::WeekId, s, Cause::Shape));
            }
            i = i + 1;
        }
        proof {
            assert forall|i: int| 0 <= i < 4 implies is_digit(#[trigger] s@.subrange(0, 4)[i]) by {
                assert(s@.subrange(0, 4)[i] == s@[i]);
            };
            assert forall|i: int| 0 <= i < 2 implies is_digit(#[trigger] s@.subrange(5, 7)[i]) by {
                assert(s@.subrange(5, 7)[i] == s@[i + 5]);
            };
        }
        let year = small_value(s, 0, 4);
        let week = small_value(s, 5, 7);
        Self::new(year as i32, week, s)
    }
}

/// `dddd-dd` in ASCII digits.
pub open spec fn key_shape(s: Seq<char>) -> bool {
    &&& s.len() == 7
    &&& s[4] == '-'
    &&& forall|i: int| 0 <= i < 7 && i != 4 ==> is_digit(#[trigger] s[i])
}

pub open spec fn key_fields(s: Seq<char>) -> (int, int) {
    (digits_value(s.subrange(0, 4)), digits_value(s.subrange(5, 7)))
}

/// Why `WeekId::new(y, w, ..)` rejects, or `None` when it accepts.
pub open spec fn week_rejection(y: int, w: int) -> Option<Cause> {
    if w == 0 || !(MIN_YEAR <= y <= MAX_YEAR) {
        Some(Cause::OutOfRange)
    } else if w > iso_weeks_in(y) {
        Some(Cause::NoSuchIsoWeek { iso_year: y as i32, weeks_in_year: iso_weeks_in(y) as u32 })
    } else {
        None
    }
}

/// Day number of the Monday of ISO week `(y, w)`.
pub open spec fn monday_num(yw: (int, int)) -> int {
    iso_week1_monday(yw.0) + 7 * (yw.1 - 1)
}

/// The whole Monday..Sunday span of the week is a range of chrono dates.
pub open spec fn week_in_range(yw: (int, int)) -> bool {
    &&& CHRONO_MIN_YEAR <= yw.0 <= CHRONO_MAX_YEAR
    &&& min_day_number() <= monday_num(yw)
    &&& monday_num(yw) + 6 <= max_day_number()
}

/// `next` does not panic: the year's week count can be read, and a
/// roll-over never passes `MAX_YEAR`.
pub open spec fn can_advance(yw: (int, int)) -> bool {
    &&& CHRONO_MIN_YEAR <= yw.0 <= CHRONO_MAX_YEAR
    &&& !(yw.1 >= iso_weeks_in(yw.0) && yw.0 >= MAX_YEAR)
}

/// `prev` does not panic: a roll-back never goes below `MIN_YEAR`.
pub open spec fn can_retreat(yw: (int, int)) -> bool {
    yw.1 > 1 || (MIN_YEAR + 1 <= yw.0 <= CHRONO_MAX_YEAR + 1)
}

impl WeekId {
    /// Next ISO week, rolling 52/53 correctly.
    pub fn next(&self) -> (r: WeekId)
        requires
            can_advance(self.yw()),
        ensures
            r.yw() == next_yw(self.yw()),
    {
        proof {
            use_type_invariant(self);
            lemma_weeks_in_year(self.iso_year as int + 1);
        }
        if (self.week as u32) < iso_weeks_in_year(self.iso_year) {
            WeekId { iso_year: self.iso_year, week: self.week + 1 }
        } else {
            WeekId { iso_year: self.iso_year + 1, week: 1 }
        }
    }

    /// Previous ISO week, rolling back onto 52/53-week years correctly.
    pub fn prev(&self) -> (r: WeekId)
        requires
            can_retreat(self.yw()),
        ensures
            r.yw() == prev_yw(self.yw()),
    {
        proof {
            use_type_invariant(self);
            lemma_weeks_in_year(self.iso_year as int - 1);
        }
        if self.week > 1 {
            WeekId { iso_year: self.iso_year, week: self.week - 1 }
        } else {
            let iso_year = self.iso_year - 1;
            WeekId { iso_year, week: iso_weeks_in_year(iso_year) as u8 }
        }
    }

    /// Monday of this week.
    pub fn start(&self) -> (r: Date)
        requires
            week_in_range(self.yw()),
        ensures
            r.num() == monday_num(self.yw()),
    {
        proof {
            use_type_invariant(self);
        }
        match iso_week_monday(self.iso_year, self.week as u32) {
            Some(d) => d,
            None => {
                assert(false);
                Date::from_ymd_opt(2000, 1, 1).unwrap()
            },
        }
    }

    /// Sunday of this week.
    pub fn end(&self) -> (r: Date)
        requires
            week_in_range(self.yw()),
        ensures
            r.num() == monday_num(self.yw()) + 6,
    {
        let start = self.start();
        match add_days(&start, 6) {
            Some(d) => d,
            None => start,
        }
    }

    /// `(Monday, Sunday)`.
    pub fn span(&self) -> (r: (Date, Date))
        requires
            week_in_range(self.yw()),
        ensures
            r.0.num() == monday_num(self.yw()),
            r.1.num() == monday_num(self.yw()) + 6,
    {
        (self.start(), self.end())
    }

    /// All seven dates, Monday first.
    pub fn dates(&self) -> (r: [Date; 7])
        requires
            week_in_range(self.yw()),
        ensures
            forall|i: int| 0 <= i < 7 ==> (#[trigger] r[i]).num() == monday_num(self.yw()) + i,
    {
        let start = self.start();
        let d1 = add_days(&start, 1).unwrap();
        let d2 = add_days(&start, 2).unwrap();
        let d3 = add_days(&start, 3).unwrap();
        let d4 = add_days(&start, 4).unwrap();
        let d5 = add_days(&start, 5).unwrap();
        let d6 = add_days(&start, 6).unwrap();
        [start, d1, d2, d3, d4, d5, d6]
    }

    /// Does this week contain `date`?
    pub fn contains(&self, date: &Date) -> (r: bool)
        ensures
            r == (self.yw() == (iso_year_of(date.num(), date.y()), iso_week_of(
                date.num(),
                date.y(),
            ))),
    {
        let w = WeekId::from_date(date);
        proof {
            WeekId::lemma_eq(w, *self);
        }
        w == *self
    }
}

/// `next` and `prev` undo each other on every real week.
pub proof fn lemma_next_prev_inverse(yw: (int, int))
    requires
        1 <= yw.1 <= iso_weeks_in(yw.0),
    ensures
        prev_yw(next_yw(yw)) == yw,
        next_yw(prev_yw(yw)) == yw,
        yw_lt(yw, next_yw(yw)),
        yw_lt(prev_yw(yw), yw),
        1 <= next_yw(yw).1 <= iso_weeks_in(next_yw(yw).0),
        1 <= prev_yw(yw).1 <= iso_weeks_in(prev_yw(yw).0),
{
    lemma_weeks_in_year(yw.0 - 1);
    lemma_weeks_in_year(yw.0);
    lemma_weeks_in_year(yw.0 + 1);
}

/// The next week's Monday is seven days after this week's Monday.
pub proof fn lemma_next_monday(yw: (int, int))
    requires
        1 <= yw.1 <= iso_weeks_in(yw.0),
    ensures
        monday_num(next_yw(yw)) == monday_num(yw) + 7,
{
    lemma_weeks_in_year(yw.0);
}

/// Week-1 Mondays strictly increase with the year.
pub proof fn lemma_week1_monday_increasing(a: int, b: int)
    requires
        a < b,
    ensures
        iso_week1_monday(a) + 364 <= iso_week1_monday(b),
    decreases b - a,
{
    lemma_weeks_in_year(b - 1);
    if a < b - 1 {
        lemma_week1_monday_increasing(a, b - 1);
    }
}

/// Every date of a week maps back to that week: the week's Monday..Sunday
/// are exactly the dates whose ISO week it is.
pub proof fn law_week_dates_belong_to_the_week(yw: (int, int), d: Date)
    requires
        1 <= yw.1 <= iso_weeks_in(yw.0),
        valid_ymd(d.y(), d.m(), d.d()),
        monday_num(yw) <= d.num() <= monday_num(yw) + 6,
    ensures
        iso_year_of(d.num(), d.y()) == yw.0,
        iso_week_of(d.num(), d.y()) == yw.1,
{
    lemma_iso_year_bounds(d.y(), d.m(), d.d());
    lemma_weeks_in_year(yw.0);
    let iy = iso_year_of(d.num(), d.y());
    if iy < yw.0 {
        lemma_week1_monday_increasing(iy + 1, yw.0 + 1);
        if iy + 1 < yw.0 {
            lemma_week1_monday_increasing(iy + 1, yw.0);
        }
    } else if iy > yw.0 {
        if yw.0 + 1 < iy {
            lemma_week1_monday_increasing(yw.0 + 1, iy);
        }
    }
    assert(iy == yw.0);
    assert((d.num() - iso_week1_monday(yw.0)) / 7 == yw.1 - 1);
}

// ---------------------------------------------------------------------------
// WEEK_ID argument
// ---------------------------------------------------------------------------

/// The `(year, week)` numbers a `WEEK_ID` spells (`YYYY-WW`, `YYYY-W`,
/// `WW` or `W`; a bare week takes the ISO year of `today`), or `None`
/// when it has neither shape.
pub open spec fn week_arg_fields(s: Seq<char>, today: Date) -> Option<(int, int)> {
    let (year, week_str): (Option<int>, Seq<char>) = match first_index(s, '-') {
        Some(i) => {
            let y = s.take(i);
            if y.len() == 4 && all_digits(y) {
                (Some(digits_value(y)), s.skip(i + 1))
            } else {
                (None, Seq::empty())
            }
        },
        None => (Some(iso_year_of(today.num(), today.y())), s),
    };
    match year {
        None => None,
        Some(y) => if 1 <= week_str.len() <= 2 && all_digits(week_str) {
            Some((y, digits_value(week_str)))
        } else {
            None
        },
    }
}

/// Parse a `WEEK_ID` argument: full `YYYY-WW` or a bare `WW` whose year
/// defaults to `today`'s ISO year. Unpadded weeks are normalized.
pub fn parse_week_id(s: &str, today: &Date) -> (r: Result<WeekId, DateWeekError>)
    ensures
        r matches Ok(w) ==> week_arg_fields(s@, *today) == Some(w.yw()),
        r matches Err(e) ==> e.arg == ArgKind::WeekId && e.input@ == s@ && match week_arg_fields(
            s@,
            *today,
        ) {
            None => e.cause == Cause::Shape,
            Some((y, w)) => week_rejection(y, w) == Some(e.cause),
        },
        r is Ok <==> (week_arg_fields(s@, *today) matches Some((y, w)) && (week_rejection(y, w)
            is None)),
{
    let n = s.unicode_len();
    let (year, week_str): (i32, &str) = match find_char(s, '-') {
        Some(i) => {
            let y = s.substring_char(0, i);
            assert(y@ =~= s@.take(i as int));
            if i != 4 || !is_all_digits(y) {
                return Err(DateWeekError::new(ArgKind::WeekId, s, Cause::Shape));
            }
            let w = s.substring_char(i + 1, n);
            assert(w@ =~= s@.skip(i + 1));
            proof {
                assert(y@ =~= s@.subrange(0, 4));
            }
            (small_value(s, 0, 4) as i32, w)
        },
        None => {
            let (iy, _w) = iso_week(today);
            (iy, s)
        },
    };
    let wn = week_str.unicode_len();
    if wn == 0 || wn > 2 || !is_all_digits(week_str) {
        return Err(DateWeekError::new(ArgKind::WeekId, s, Cause::Shape));
    }
    let week = small_value(week_str, 0, wn);
    proof {
        assert(week_str@.subrange(0, wn as int) =~= week_str@);
    }
    WeekId::new(year, week, s)
}

fn is_all_digits(s: &str) -> (r: bool)
    ensures
        r == all_digits(s@),
{
    let n = s.unicode_len();
    let mut i: usize = 0;
    while i < n
        invariant
            n == s@.len(),
            i <= n,
            forall|j: int| 0 <= j < i ==> is_digit(#[trigger] s@[j]),
        decreases n - i,
    {
        let c = s.get_char(i);
        if !('0' <= c && c <= '9') {
            return false;
        }
        i = i + 1;
    }
    true
}

// ---------------------------------------------------------------------------
// Week iteration
// ---------------------------------------------------------------------------

/// Walking forward from `c` to `end` never panics: either nothing needs
/// to be walked, or every week on the way can be advanced past.
pub open spec fn walk_ok(c: (int, int), end: (int, int)) -> bool {
    c == end || yw_lt(end, c) || (CHRONO_MIN_YEAR <= c.0 && c.0 <= CHRONO_MAX_YEAR && (end.0
        <= MAX_YEAR || c.0 == end.0))
}

/// Inclusive sequence of consecutive ISO weeks; empty if `from > to`.
#[derive(Debug)]
pub struct WeekRange {
    cursor: Option<WeekId>,
    end: WeekId,
}

/// Advancing a week that is still before `end` stays at or before `end`.
proof fn lemma_next_stays_in_range(c: (int, int), end: (int, int))
    requires
        1 <= c.1 <= iso_weeks_in(c.0),
        1 <= end.1 <= iso_weeks_in(end.0),
        yw_lt(c, end),
    ensures
        !yw_lt(end, next_yw(c)),
        next_yw(c) != end ==> yw_lt(next_yw(c), end),
        c.1 >= iso_weeks_in(c.0) ==> c.0 < end.0,
{
}

impl WeekRange {
    #[verifier::type_invariant]
    spec fn inv(self) -> bool {
        self.cursor matches Some(c) ==> !yw_lt(self.end.yw(), c.yw())
    }

    /// The next week still to come, if any.
    pub closed spec fn cursor(self) -> Option<WeekId> {
        self.cursor
    }

    /// The last week of the range.
    pub closed spec fn last(self) -> WeekId {
        self.end
    }

    /// Yields the next week of the range, or `None` once past its end.
    pub fn next(&mut self) -> (r: Option<WeekId>)
        requires
            old(self).cursor() matches Some(c) ==> walk_ok(c.yw(), old(self).last().yw()),
        ensures
            r == old(self).cursor(),
            final(self).last() == old(self).last(),
            r matches Some(c) ==> (if c == old(self).last() {
                final(self).cursor() is None
            } else {
                (final(self).cursor() matches Some(n) && n.yw() == next_yw(c.yw()))
            }),
    {
        proof {
            use_type_invariant(&*self);
        }
        let current = match self.cursor {
            Some(c) => c,
            None => return None,
        };
        let end = self.end;
        if current == end {
            self.cursor = None;
        } else {
            proof {
                use_type_invariant(&current);
                use_type_invariant(&end);
                WeekId::lemma_eq(current, end);
                lemma_next_stays_in_range(current.yw(), end.yw());
            }
            let n = current.next();
            self.cursor = Some(n);
        }
        Some(current)
    }

    /// Every week of the range, in order.
    pub fn to_vec(&self) -> (r: Vec<WeekId>)
        requires
            self.cursor() matches Some(c) ==> walk_ok(c.yw(), self.last().yw()),
        ensures
            self.cursor() is None ==> r@.len() == 0,
            self.cursor() matches Some(c) ==> (r@.len() > 0 && r@[0] == c && r@.last()
                == self.last()),
            forall|i: int| 0 <= i < r@.len() - 1 ==> (#[trigger] r@[i + 1]).yw() == next_yw(
                r@[i].yw(),
            ),
            self.cursor() matches Some(c) ==> r@.len() == weeks_between(c.yw(), self.last().yw()) + 1
                && forall|i: int| 0 <= i < r@.len() ==> (#[trigger] r@[i]).yw() == week_at(c.yw(), i as nat),
    {
        proof {
            use_type_invariant(self);
        }
        let end = self.end;
        let mut cursor = self.cursor;
        let mut out: Vec<WeekId> = Vec::new();
        proof {
            use_type_invariant(&end);
        }
        while cursor.is_some()
            invariant
                valid_week(end.yw().0, end.yw().1),
                cursor matches Some(c) ==> !yw_lt(end.yw(), c.yw()),
                cursor matches Some(c) ==> walk_ok(c.yw(), end.yw()),
                end == self.last(),
                self.cursor() is None ==> cursor is None && out@.len() == 0,
                out@.len() == 0 ==> cursor == self.cursor(),
                out@.len() > 0 ==> (self.cursor() matches Some(c) && out@[0] == c),
                out@.len() > 0 ==> (cursor matches Some(n) ==> n.yw() == next_yw(
                    out@.last().yw(),
                )),
                out@.len() > 0 && cursor is None ==> out@.last() == end,
                forall|i: int| 0 <= i < out@.len() - 1 ==> (#[trigger] out@[i + 1]).yw()
                    == next_yw(out@[i].yw()),
            decreases (match cursor {
                Some(c) => end.yw().0 - c.yw().0 + 1,
                None => 0,
            }), (match cursor {
                Some(c) => 54 - c.yw().1,
                None => 0,
            }),
        {
            let current = cursor.unwrap();
            proof {
                use_type_invariant(&current);
                lemma_weeks_in_year(current.yw().0);
            }
            out.push(current);
            if current == end {
                cursor = None;
            } else {
                proof {
                    WeekId::lemma_eq(current, end);
                    lemma_next_stays_in_range(current.yw(), end.yw());
                }
                let n = current.next();
                proof {
                    use_type_invariant(&n);
                }
                cursor = Some(n);
            }
            proof {
                let k = out@.len() - 1;
                assert(out@.last() == current);
                if k > 0 {
                    assert(out@[k] == current);
                }
            }
        }
        if out.len() > 0 {
            let first = out[0];
            first.valid();
            proof {
                law_series_walks_the_week_range(out@, first.yw(), end.yw());
            }
        }
        out
    }
}

/// Inclusive week sequence `from..=to`; empty when `from > to`.
pub fn week_range(from: WeekId, to: WeekId) -> (r: WeekRange)
    ensures
        r.last() == to,
        r.cursor() == (if yw_lt(to.yw(), from.yw()) {
            None
        } else {
            Some(from)
        }),
{
    if to.before(&from) {
        WeekRange { cursor: None, end: to }
    } else {
        WeekRange { cursor: Some(from), end: to }
    }
}

// ---------------------------------------------------------------------------
// Laws
// ---------------------------------------------------------------------------

/// A week's storage key reads back as that week: `from_key(to_key(w))` is
/// `Ok` with the same `(ISO year, week)`, for every constructible week.
pub proof fn law_key_round_trip(y: int, w: int)
    requires
        MIN_YEAR <= y <= MAX_YEAR,
        1 <= w <= iso_weeks_in(y),
    ensures
        key_shape(week_key_text(y, w)),
        key_fields(week_key_text(y, w)) == (y, w),
        week_rejection(y, w) is None,
{
    assert(pow10(4) == 10000) by {
        reveal_with_fuel(pow10, 5);
    }
    assert(pow10(2) == 100) by {
        reveal_with_fuel(pow10, 3);
    }
    lemma_weeks_in_year(y);
    lemma_zero_padded_reads_back(y as nat, 4);
    lemma_zero_padded_reads_back(w as nat, 2);
    let a = zero_padded(y as nat, 4);
    let b = zero_padded(w as nat, 2);
    let t = week_key_text(y, w);
    assert(t == a + seq!['-'] + b);
    assert(t.subrange(0, 4) =~= a);
    assert(t.subrange(5, 7) =~= b);
    assert forall|i: int| 0 <= i < 7 && i != 4 implies is_digit(#[trigger] t[i]) by {
        if i < 4 {
            assert(t[i] == a[i]);
        } else {
            assert(t[i] == b[i - 5]);
        }
    };
}

/// Keys order weeks chronologically: read back as `year * 100 + week`,
/// the key of the earlier of two constructible weeks is the smaller
/// number.
pub proof fn law_key_order_is_chronological(a: (int, int), b: (int, int))
    requires
        MIN_YEAR <= a.0 <= MAX_YEAR,
        MIN_YEAR <= b.0 <= MAX_YEAR,
        1 <= a.1 <= iso_weeks_in(a.0),
        1 <= b.1 <= iso_weeks_in(b.0),
    ensures
        yw_lt(a, b) <==> digits_value(week_key_text(a.0, a.1).subrange(0, 4)) * 100
            + digits_value(week_key_text(a.0, a.1).subrange(5, 7)) < digits_value(
            week_key_text(b.0, b.1).subrange(0, 4),
        ) * 100 + digits_value(week_key_text(b.0, b.1).subrange(5, 7)),
{
    law_key_round_trip(a.0, a.1);
    law_key_round_trip(b.0, b.1);
    lemma_weeks_in_year(a.0);
    lemma_weeks_in_year(b.0);
}

/// Keys sort as texts exactly as weeks sort in time: for weeks of ISO
/// years 0..=9999 (four-digit keys), `a` is earlier than `b` exactly when
/// `a`'s seven-character key is smaller than `b`'s in character order,
/// and equal keys mean the same week.
pub proof fn law_key_text_order_is_chronological(a: (int, int), b: (int, int))
    requires
        0 <= a.0 <= MAX_YEAR,
        0 <= b.0 <= MAX_YEAR,
        1 <= a.1 <= iso_weeks_in(a.0),
        1 <= b.1 <= iso_weeks_in(b.0),
    ensures
        week_key_text(a.0, a.1).len() == 7,
        yw_lt(a, b) <==> text_lt(week_key_text(a.0, a.1), week_key_text(b.0, b.1)),
        a == b <==> week_key_text(a.0, a.1) == week_key_text(b.0, b.1),
{
    assert(pow10(4) == 10000) by {
        reveal_with_fuel(pow10, 5);
    }
    assert(pow10(2) == 100) by {
        reveal_with_fuel(pow10, 3);
    }
    lemma_weeks_in_year(a.0);
    lemma_weeks_in_year(b.0);
    lemma_zero_padded_reads_back(a.0 as nat, 4);
    lemma_zero_padded_reads_back(a.1 as nat, 2);
    lemma_zero_padded_reads_back(b.0 as nat, 4);
    lemma_zero_padded_reads_back(b.1 as nat, 2);
    let ya = zero_padded(a.0 as nat, 4);
    let wa = zero_padded(a.1 as nat, 2);
    let yb = zero_padded(b.0 as nat, 4);
    let wb = zero_padded(b.1 as nat, 2);
    assert(week_key_text(a.0, a.1) == ya + (seq!['-'] + wa));
    assert(week_key_text(b.0, b.1) == yb + (seq!['-'] + wb));
    lemma_digits_text_order(ya, yb);
    lemma_digits_text_order(wa, wb);
    lemma_text_lt_concat(ya, seq!['-'] + wa, yb, seq!['-'] + wb);
    lemma_text_lt_concat(seq!['-'], wa, seq!['-'], wb);
    assert(!text_lt(seq!['-'], seq!['-'])) by {
        let e = Seq::<char>::empty();
        assert(seq!['-'].drop_first() =~= e);
        assert(!text_lt(e, e));
    };
    if week_key_text(a.0, a.1) == week_key_text(b.0, b.1) {
        assert((ya + (seq!['-'] + wa)).subrange(0, 4) =~= ya);
        assert((yb + (seq!['-'] + wb)).subrange(0, 4) =~= yb);
        assert((ya + (seq!['-'] + wa)).subrange(5, 7) =~= wa);
        assert((yb + (seq!['-'] + wb)).subrange(5, 7) =~= wb);
    }
}

/// The storage form of a date reads back as the same date:
/// `parse_date(format_date(d))` is `d` for every date of years 0..=9999.
pub proof fn law_format_parse_round_trip(d: Date)
    requires
        valid_ymd(d.y(), d.m(), d.d()),
        0 <= d.y() <= 9999,
    ensures
        parse_date_outcome(ymd_text(d.y(), d.m(), d.d())) == Ok::<(int, int, int), Cause>(
            (d.y(), d.m(), d.d()),
        ),
{
    assert(pow10(4) == 10000) by {
        reveal_with_fuel(pow10, 5);
    }
    assert(pow10(2) == 100) by {
        reveal_with_fuel(pow10, 3);
    }
    lemma_zero_padded_reads_back(d.y() as nat, 4);
    lemma_zero_padded_reads_back(d.m() as nat, 2);
    lemma_zero_padded_reads_back(d.d() as nat, 2);
    let a = zero_padded(d.y() as nat, 4);
    let b = zero_padded(d.m() as nat, 2);
    let c = zero_padded(d.d() as nat, 2);
    let t = ymd_text(d.y(), d.m(), d.d());
    assert(t == a + seq!['-'] + b + seq!['-'] + c);
    assert(t.subrange(0, 4) =~= a);
    assert(t.subrange(5, 7) =~= b);
    assert(t.subrange(8, 10) =~= c);
    assert forall|i: int| 0 <= i < 10 && i != 4 && i != 7 implies is_digit(#[trigger] t[i]) by {
        if i < 4 {
            assert(t[i] == a[i]);
        } else if i < 7 {
            assert(t[i] == b[i - 5]);
        } else {
            assert(t[i] == c[i - 8]);
        }
    };
}

/// The `-N` shorthand always names a date strictly before today, so the
/// future check of `start`/`stop`/`note` never refuses it.
pub proof fn law_shorthand_is_never_future(s: Seq<char>, today: Date, d: Date)
    requires
        valid_ymd(today.y(), today.m(), today.d()),
        valid_ymd(d.y(), d.m(), d.d()),
        is_relative(s),
        resolves_to(s, today, d),
    ensures
        date_lt(d, today),
        !date_lt(today, d),
{
    lemma_date_order(d, today);
    lemma_date_order(today, d);
}

/// The future-checked resolver is the resolver followed by a rejection of
/// dates after today: when an argument resolves to a real date `d`, no
/// cause of failure applies to it, `d` is the only real date it resolves
/// to, and (for an absolute date) every date value it names is after
/// today exactly when `d` is. So `resolve_future_checked_date` returns
/// `Ok(d)` when `d` is not after today and fails with `Future` when it is.
pub proof fn law_future_check_is_resolve_then_reject(s: Seq<char>, today: Date, d: Date)
    requires
        valid_ymd(today.y(), today.m(), today.d()),
        valid_ymd(d.y(), d.m(), d.d()),
        resolves_to(s, today, d),
    ensures
        forall|c: Cause| !#[trigger] resolve_fails(s, today, c),
        forall|x: Date| valid_ymd(x.y(), x.m(), x.d()) && #[trigger] resolves_to(s, today, x) ==> x == d,
        forall|x: Date| !is_relative(s) && #[trigger] resolves_to(s, today, x) ==> (date_lt(today, x) == date_lt(today, d)),
{
    if is_relative(s) {
        lemma_day_in_year(d.y(), d.m(), d.d());
        lemma_years_before(d.y(), 10000);
        if 1000 < d.y() {
            lemma_years_before(999, d.y());
        }
        lemma_years_before(CHRONO_MIN_YEAR as int, 1000);
        assert(days_before_year(1000) < d.num() <= days_before_year(10000));
        assert(min_day_number() <= days_before_year(CHRONO_MIN_YEAR as int + 1)) by {
            lemma_day_in_year(CHRONO_MIN_YEAR as int, 12, 31);
        };
        assert forall|x: Date| valid_ymd(x.y(), x.m(), x.d()) && #[trigger] resolves_to(s, today, x) implies x == d by {
            lemma_date_order(x, d);
        };
    } else {
        assert forall|x: Date| valid_ymd(x.y(), x.m(), x.d()) && #[trigger] resolves_to(s, today, x) implies x == d by {
            Date::lemma_eq(x, d);
        };
    }
}

/// A weekday's full name begins with its three-letter abbreviation (the
/// one the status header shows) and ends in `day`, and different
/// weekdays have different names, so the deadline phrase names the same
/// weekday as the header of today's date.
pub proof fn law_full_weekday_name_extends_its_abbreviation(w: int, v: int)
    requires
        1 <= w <= 7,
        1 <= v <= 7,
    ensures
        weekday_full_text(w).len() > 3,
        weekday_full_text(w).take(3) == weekday_abbrev_text(w),
        weekday_full_text(w).skip(weekday_full_text(w).len() - 3) == "day"@,
        w != v ==> weekday_abbrev_text(w) != weekday_abbrev_text(v),
        w != v ==> weekday_full_text(w) != weekday_full_text(v),
{
    reveal_strlit("Mon");
    reveal_strlit("Tue");
    reveal_strlit("Wed");
    reveal_strlit("Thu");
    reveal_strlit("Fri");
    reveal_strlit("Sat");
    reveal_strlit("Sun");
    reveal_strlit("Monday");
    reveal_strlit("Tuesday");
    reveal_strlit("Wednesday");
    reveal_strlit("Thursday");
    reveal_strlit("Friday");
    reveal_strlit("Saturday");
    reveal_strlit("Sunday");
    reveal_strlit("day");
    let f = weekday_full_text(w);
    assert(f.take(3) =~= weekday_abbrev_text(w));
    assert(f.skip(f.len() - 3) =~= "day"@);
    if w != v {
        let a = weekday_abbrev_text(w);
        let b = weekday_abbrev_text(v);
        assert(a[0] != b[0] || a[1] != b[1] || a[2] != b[2]);
        assert(a != b);
        let g = weekday_full_text(v);
        assert(f.take(3) != g.take(3));
        assert(f != g);
    }
}

/// Every date lies inside its own ISO week: between the Monday and the
/// Sunday of the week `from_date` gives it, and that week is a real one.
pub proof fn law_date_lies_in_its_week(d: Date)
    requires
        valid_ymd(d.y(), d.m(), d.d()),
    ensures
        ({
            let yw = (iso_year_of(d.num(), d.y()), iso_week_of(d.num(), d.y()));
            &&& 1 <= yw.1 <= iso_weeks_in(yw.0)
            &&& monday_num(yw) <= d.num() <= monday_num(yw) + 6
        }),
{
    lemma_iso_year_bounds(d.y(), d.m(), d.d());
}

} // verus!
