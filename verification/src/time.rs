//! Time-of-day and duration parsing/formatting. Every duration is a plain
//! signed minute count and every duration shown to a user goes through
//! [`format_minutes`].

use crate::calendar::{hm_text, Time};
use crate::text::{
    all_digits, debug_quote, debug_quoted, decimal, digits_i64, digits_value, find_char,
    first_index, is_digit, is_first, lemma_zero_padded_reads_back, lemma_zero_padded_value, parse_digits, pow10, push_char,
    push_str, push_zero_padded, zero_padded,
};
use vstd::prelude::*;

verus! {

/// Why a `TIME` argument was rejected.
#[derive(Debug, Clone, PartialEq, Eq)]
pub enum TimeParseError {
    /// Doesn't match the `HH:MM` / `HHMM` / `HH` shape at all.
    InvalidFormat(String),
    /// Matched a shape, but the hour and/or minute is out of range
    /// (including `24:00`).
    OutOfRange { input: String, hour: u32, minute: u32 },
    /// No `TIME` given where one was required: the date is not today, so
    /// "now" has no meaning. Carries no offending string.
    Required,
}

/// Why a `DURATION` argument was rejected.
#[derive(Debug, Clone, PartialEq, Eq)]
pub enum DurationParseError {
    /// Doesn't match the `Hh` / `HhMMm` / `MMm` shape.
    InvalidFormat(String),
    /// Matched the shape, but the value is negative.
    Negative(i64),
}

// ---------------------------------------------------------------------------
// format_minutes
// ---------------------------------------------------------------------------

pub open spec fn abs(x: int) -> int {
    if x < 0 {
        -x
    } else {
        x
    }
}

/// `HHh MMm` of the magnitude, both zero-padded, with a single leading `-`
/// for a negative value.
pub open spec fn minutes_text(m: int) -> Seq<char> {
    let mag = abs(m);
    (if m < 0 {
        seq!['-']
    } else {
        Seq::empty()
    }) + zero_padded((mag / 60) as nat, 2) + seq!['h', ' '] + zero_padded((mag % 60) as nat, 2)
        + seq!['m']
}

/// Appends `minutes` as `format_minutes` writes it.
pub fn push_minutes(s: &mut String, minutes: i64)
    ensures
        final(s)@ == old(s)@ + minutes_text(minutes as int),
{
    let magnitude: u64 = if minutes < 0 {
        ((-(minutes + 1)) as u64) + 1
    } else {
        minutes as u64
    };
    if minutes < 0 {
        push_char(s, '-');
    }
    push_zero_padded(s, magnitude / 60, 2);
    push_char(s, 'h');
    push_char(s, ' ');
    push_zero_padded(s, magnitude % 60, 2);
    push_char(s, 'm');
    assert(s@ =~= old(s)@ + minutes_text(minutes as int));
}

/// The one canonical duration display formatter: always `HHh MMm`, both
/// sides zero-padded, hour part never dropped; a negative value keeps the
/// same padding with a single leading `-`.
pub fn format_minutes(minutes: i64) -> (r: String)
    ensures
        r@ == minutes_text(minutes as int),
{
    let mut s = String::new();
    push_minutes(&mut s, minutes);
    s
}

// ---------------------------------------------------------------------------
// DURATION
// ---------------------------------------------------------------------------

/// `hours * 60 + minutes` of two digit runs, `None` if either is not a
/// plain digit run or the total overflows an `i64`.
pub open spec fn spec_checked_minutes(hours: Seq<char>, minutes: Seq<char>) -> Option<int> {
    match digits_i64(hours) {
        None => None,
        Some(h) => match digits_i64(minutes) {
            None => None,
            Some(m) => if h * 60 + m <= i64::MAX {
                Some(h * 60 + m)
            } else {
                None
            },
        },
    }
}

/// The magnitude a `DURATION` body (sign already removed) spells, if any.
pub open spec fn duration_magnitude(body: Seq<char>) -> Option<int> {
    if body.len() > 0 && body.last() == 'm' {
        let rest = body.drop_last();
        match first_index(rest, 'h') {
            Some(i) => spec_checked_minutes(rest.take(i), rest.skip(i + 1)),
            None => digits_i64(rest),
        }
    } else if body.len() > 0 && body.last() == 'h' {
        spec_checked_minutes(body.drop_last(), seq!['0'])
    } else {
        None
    }
}

/// What `parse_duration` decides: `Ok(minutes)`, `Err(None)` for a
/// malformed input, `Err(Some(v))` for a well-shaped negative value `v`.
pub open spec fn duration_outcome(s: Seq<char>) -> Result<int, Option<int>> {
    let negative = s.len() > 0 && s[0] == '-';
    let body = if negative {
        s.drop_first()
    } else {
        s
    };
    match duration_magnitude(body) {
        None => Err(None),
        Some(v) => if negative && v != 0 {
            Err(Some(-v))
        } else {
            Ok(v)
        },
    }
}

fn checked_minutes(hours: &str, minutes: &str) -> (r: Option<i64>)
    ensures
        r matches Some(v) ==> spec_checked_minutes(hours@, minutes@) == Some(v as int) && v >= 0,
        r is None ==> spec_checked_minutes(hours@, minutes@) is None,
{
    let h = match parse_digits(hours) {
        Some(h) => h,
        None => return None,
    };
    let m = match parse_digits(minutes) {
        Some(m) => m,
        None => return None,
    };
    if h > (i64::MAX - m) / 60 {
        return None;
    }
    Some(h * 60 + m)
}

/// Parses a `DURATION` (`Hh`, `HhMMm` or `MMm`, unpadded) into minutes.
/// Zero is legal; a negative value is rejected on its sign.
pub fn parse_duration(input: &str) -> (r: Result<i64, DurationParseError>)
    ensures
        r matches Ok(v) ==> duration_outcome(input@) == Ok::<int, Option<int>>(v as int),
        r matches Err(DurationParseError::InvalidFormat(s)) ==> duration_outcome(input@)
            == Err::<int, Option<int>>(None) && s@ == input@,
        r matches Err(DurationParseError::Negative(v)) ==> duration_outcome(input@) == Err::<
            int,
            Option<int>,
        >(Some(v as int)),
{
    let n = input.unicode_len();
    let negative = n > 0 && input.get_char(0) == '-';
    let body: &str = if negative {
        input.substring_char(1, n)
    } else {
        input
    };
    proof {
        if negative {
            assert(body@ =~= input@.drop_first());
        }
    }
    let bn = body.unicode_len();
    let magnitude: Option<i64> = if bn > 0 && body.get_char(bn - 1) == 'm' {
        let rest = body.substring_char(0, bn - 1);
        assert(rest@ =~= body@.drop_last());
        match find_char(rest, 'h') {
            Some(i) => {
                let hours = rest.substring_char(0, i);
                let minutes = rest.substring_char(i + 1, bn - 1);
                assert(hours@ =~= rest@.take(i as int));
                assert(minutes@ =~= rest@.skip(i + 1));
                checked_minutes(hours, minutes)
            },
            None => parse_digits(rest),
        }
    } else if bn > 0 && body.get_char(bn - 1) == 'h' {
        let rest = body.substring_char(0, bn - 1);
        assert(rest@ =~= body@.drop_last());
        let zero = "0";
        proof {
            reveal_strlit("0");
        }
        assert(zero@ =~= seq!['0']);
        checked_minutes(rest, zero)
    } else {
        None
    };
    match magnitude {
        None => Err(DurationParseError::InvalidFormat(input.to_owned())),
        Some(v) => {
            if negative && v != 0 {
                Err(DurationParseError::Negative(-v))
            } else {
                Ok(v)
            }
        },
    }
}

// ---------------------------------------------------------------------------
// TIME
// ---------------------------------------------------------------------------

/// `s` is `min..=max` ASCII digits.
pub open spec fn digits_between(s: Seq<char>, min: int, max: int) -> bool {
    min <= s.len() <= max && all_digits(s)
}

/// The `(hour, minute)` a `TIME` spells, if it has one of the three shapes
/// (`HH:MM` with 1-2 hour digits and exactly 2 minute digits, `HHMM`, or
/// `HH` with minute 0); the range is not checked here.
pub open spec fn time_fields(s: Seq<char>) -> Option<(int, int)> {
    match first_index(s, ':') {
        Some(i) => {
            let hours = s.take(i);
            let minutes = s.skip(i + 1);
            if digits_between(hours, 1, 2) && digits_between(minutes, 2, 2) {
                Some((digits_value(hours), digits_value(minutes)))
            } else {
                None
            }
        },
        None => if digits_between(s, 1, 2) {
            Some((digits_value(s), 0))
        } else if digits_between(s, 4, 4) {
            Some((digits_value(s.take(2)), digits_value(s.skip(2))))
        } else {
            None
        },
    }
}

/// Are the characters `min..=max` ASCII digits?
fn is_digits(s: &str, min: usize, max: usize) -> (r: bool)
    ensures
        r == digits_between(s@, min as int, max as int),
{
    let n = s.unicode_len();
    if n < min || n > max {
        return false;
    }
    let mut i: usize = 0;
    while i < n
        invariant
            n == s@.len(),
            i <= n,
            forall|j: int| 0 <= j < i ==> crate::text::is_digit(#[trigger] s@[j]),
        decreases n - i,
    {
        let c = s.get_char(i);
        if !('0' <= c && c <= '9') {
            return false;
        }
        i = i + 1;
    }
    true
}

/// Value of at most four ASCII digits.
fn parse_u32(s: &str) -> (r: u32)
    requires
        digits_between(s@, 1, 4),
    ensures
        r as int == digits_value(s@),
{
    proof {
        lemma_small_digits(s@);
    }
    match parse_digits(s) {
        Some(v) => v as u32,
        None => 0,
    }
}

proof fn lemma_small_digits(s: Seq<char>)
    requires
        all_digits(s),
        s.len() <= 4,
    ensures
        0 <= digits_value(s),
        digits_value(s) < (if s.len() == 0 {
            1int
        } else if s.len() == 1 {
            10int
        } else if s.len() == 2 {
            100int
        } else if s.len() == 3 {
            1000int
        } else {
            10000int
        }),
        digits_i64(s) == (if s.len() > 0 {
            Some(digits_value(s))
        } else {
            None::<int>
        }),
    decreases s.len(),
{
    if s.len() > 0 {
        assert(all_digits(s.drop_last()));
        lemma_small_digits(s.drop_last());
        assert(crate::text::is_digit(s[s.len() - 1]));
    }
}

/// Parses a `TIME` argument: `HH:MM`, `HHMM`, or `HH` (minute 0). Valid
/// range is 00:00-23:59; `24:00` is rejected, never read as next-day
/// midnight.
pub fn parse_time(input: &str) -> (r: Result<Time, TimeParseError>)
    ensures
        r matches Ok(t) ==> time_fields(input@) == Some(t.hm()),
        r matches Err(TimeParseError::InvalidFormat(s)) ==> time_fields(input@) is None && s@
            == input@,
        r matches Err(TimeParseError::OutOfRange { input: s, hour, minute }) ==> time_fields(
            input@,
        ) == Some((hour as int, minute as int)) && !(hour < 24 && minute < 60) && s@ == input@,
        !(r matches Err(TimeParseError::Required)),
{
    let fields: Option<(u32, u32)> = match find_char(input, ':') {
        Some(i) => {
            let n = input.unicode_len();
            let hours = input.substring_char(0, i);
            let minutes = input.substring_char(i + 1, n);
            assert(hours@ =~= input@.take(i as int));
            assert(minutes@ =~= input@.skip(i + 1));
            if is_digits(hours, 1, 2) && is_digits(minutes, 2, 2) {
                Some((parse_u32(hours), parse_u32(minutes)))
            } else {
                None
            }
        },
        None => {
            let n = input.unicode_len();
            if is_digits(input, 1, 2) {
                Some((parse_u32(input), 0))
            } else if is_digits(input, 4, 4) {
                let hours = input.substring_char(0, 2);
                let minutes = input.substring_char(2, 4);
                assert(hours@ =~= input@.take(2));
                assert(minutes@ =~= input@.skip(2));
                Some((parse_u32(hours), parse_u32(minutes)))
            } else {
                None
            }
        },
    };
    match fields {
        None => Err(TimeParseError::InvalidFormat(input.to_owned())),
        Some((hour, minute)) => match Time::from_hm_opt(hour, minute) {
            Some(t) => Ok(t),
            None => Err(TimeParseError::OutOfRange { input: input.to_owned(), hour, minute }),
        },
    }
}

// ---------------------------------------------------------------------------
// Messages
// ---------------------------------------------------------------------------

pub open spec fn time_error_text(e: TimeParseError) -> Seq<char> {
    match e {
        TimeParseError::InvalidFormat(input) => "invalid time "@ + debug_quoted(input@)
            + ": expected HH:MM, HHMM, or HH (24-hour)"@,
        TimeParseError::OutOfRange { input, .. } => "time "@ + debug_quoted(input@)
            + " is out of range: valid times are 00:00 through 23:59"@,
        TimeParseError::Required => "TIME is required when --date targets a day other than today"@,
    }
}

pub open spec fn duration_error_text(e: DurationParseError) -> Seq<char> {
    match e {
        DurationParseError::InvalidFormat(input) => "invalid duration "@ + debug_quoted(input@)
            + ": expected a form like 20h, 33h30m, or 45m"@,
        DurationParseError::Negative(m) => "duration cannot be negative (got "@ + (if m < 0 {
            seq!['-']
        } else {
            Seq::empty()
        }) + decimal(abs(m as int) as nat) + " minutes)"@,
    }
}

impl TimeParseError {
    /// The one-line message shown on stderr.
    pub fn message(&self) -> (r: String)
        ensures
            r@ == time_error_text(*self),
    {
        let mut s = String::new();
        match self {
            TimeParseError::InvalidFormat(input) => {
                push_str(&mut s, "invalid time ");
                let q = debug_quote(input.as_str());
                push_str(&mut s, q.as_str());
                push_str(&mut s, ": expected HH:MM, HHMM, or HH (24-hour)");
            },
            TimeParseError::OutOfRange { input, .. } => {
                push_str(&mut s, "time ");
                let q = debug_quote(input.as_str());
                push_str(&mut s, q.as_str());
                push_str(&mut s, " is out of range: valid times are 00:00 through 23:59");
            },
            TimeParseError::Required => {
                push_str(&mut s, "TIME is required when --date targets a day other than today");
            },
        }
        s
    }
}

impl DurationParseError {
    /// The one-line message shown on stderr.
    pub fn message(&self) -> (r: String)
        ensures
            r@ == duration_error_text(*self),
    {
        let mut s = String::new();
        match self {
            DurationParseError::InvalidFormat(input) => {
                push_str(&mut s, "invalid duration ");
                let q = debug_quote(input.as_str());
                push_str(&mut s, q.as_str());
                push_str(&mut s, ": expected a form like 20h, 33h30m, or 45m");
            },
            DurationParseError::Negative(m) => {
                push_str(&mut s, "duration cannot be negative (got ");
                let mag: u64 = if *m < 0 {
                    push_char(&mut s, '-');
                    ((-(*m + 1)) as u64) + 1
                } else {
                    *m as u64
                };
                crate::text::push_decimal(&mut s, mag);
                push_str(&mut s, " minutes)");
            },
        }
        s
    }
}

// ---------------------------------------------------------------------------
// Laws
// ---------------------------------------------------------------------------

/// Every time of day, written `HH:MM` as the views and the recreate lines
/// write it, reads back as the same time: what is printed can be typed
/// in again.
pub proof fn law_time_text_round_trip(h: int, m: int)
    requires
        0 <= h < 24,
        0 <= m < 60,
    ensures
        time_fields(hm_text(h, m)) == Some((h, m)),
{
    assert(pow10(2) == 100) by {
        reveal_with_fuel(pow10, 3);
    }
    lemma_zero_padded_reads_back(h as nat, 2);
    lemma_zero_padded_reads_back(m as nat, 2);
    let a = zero_padded(h as nat, 2);
    let b = zero_padded(m as nat, 2);
    let t = hm_text(h, m);
    assert(t == a + seq![':'] + b);
    assert(t[0] == a[0] && t[1] == a[1]);
    assert(is_digit(a[0]) && is_digit(a[1]));
    assert(is_first(t, ':', 2));
    assert forall|i: int| #[trigger] is_first(t, ':', i) implies i == 2 by {
        if i > 2 {
            assert(t[2] == ':');
        }
        if i < 2 {
            assert(t[i] == a[i]);
        }
    };
    assert(first_index(t, ':') == Some(2int));
    assert(t.take(2) =~= a);
    assert(t.skip(3) =~= b);
}

/// A duration as `format_minutes` shows it, with its space taken out:
/// `HHh` then `MMm`.
pub open spec fn compact_minutes_text(m: int) -> Seq<char> {
    zero_padded((m / 60) as nat, 2) + seq!['h'] + zero_padded((m % 60) as nat, 2) + seq!['m']
}

/// What is shown can be typed in again: a non-negative duration as
/// `format_minutes` writes it (`HHh MMm`) is, without its space, a
/// `DURATION` that parses back to the same number of minutes.
pub proof fn law_shown_duration_parses_back(m: int)
    requires
        0 <= m <= i64::MAX,
    ensures
        minutes_text(m) == zero_padded((m / 60) as nat, 2) + seq!['h', ' '] + zero_padded(
            (m % 60) as nat,
            2,
        ) + seq!['m'],
        duration_outcome(compact_minutes_text(m)) == Ok::<int, Option<int>>(m),
{
    let hs = zero_padded((m / 60) as nat, 2);
    let ms = zero_padded((m % 60) as nat, 2);
    lemma_zero_padded_value((m / 60) as nat, 2);
    lemma_zero_padded_value((m % 60) as nat, 2);
    assert(minutes_text(m) =~= hs + seq!['h', ' '] + ms + seq!['m']);
    let t = compact_minutes_text(m);
    assert(t.len() > 0 && t.last() == 'm');
    assert(!(t[0] == '-')) by {
        assert(t[0] == hs[0]);
        assert(is_digit(hs[0]));
    };
    let rest = t.drop_last();
    assert(rest =~= hs + seq!['h'] + ms);
    let k = hs.len() as int;
    assert(is_first(rest, 'h', k)) by {
        assert forall|j: int| 0 <= j < k implies rest[j] != 'h' by {
            assert(rest[j] == hs[j]);
            assert(is_digit(hs[j]));
        };
    };
    assert forall|i: int| #[trigger] is_first(rest, 'h', i) implies i == k by {
        if i < k {
            assert(rest[i] == hs[i]);
            assert(is_digit(hs[i]));
        }
    };
    assert(first_index(rest, 'h') == Some(k));
    assert(rest.take(k) =~= hs);
    assert(rest.skip(k + 1) =~= ms);
    assert((m / 60) * 60 + m % 60 == m);
}

} // verus!
