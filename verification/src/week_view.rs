//! The `week` view: a pure renderer from a fully computed `WeekView` to the
//! sixteen-line table, and the per-date row builder that pairs each of the
//! week's seven dates on its own.

use crate::calendar::{ymd_text, Date, Time};
use crate::date::{format_date, weekday_abbrev, weekday_abbrev_text};
use crate::render::Anomalies;
use crate::status::{
    date_week, join_lines, lemma_lines_text_add, lemma_lines_text_is_joined, lines_text, worked_in,
    DayData,
};
use crate::stint::{
    all_valid, anomaly_rule, classified, classify, law_classify_at_without_neighbours, pair_groups,
    sorted_punches, sum_fits, total_minutes, OrphanedEnd, Stint,
};
use crate::storage::{valid_instant, Punch};
use crate::text::{
    all_digits, decimal, lemma_decimal_reads_back, lemma_zeros, pad_right, push_char,
    push_padded_right, push_str, repeat_char, zero_padded,
};
use crate::time::{minutes_text, push_minutes};
use vstd::prelude::*;

verus! {

/// Width of the trailing block's label column.
pub const WEEK_LABEL_WIDTH: usize = 15;

/// One row of the table, one per date of the week's Monday..Sunday span.
#[derive(Debug, Clone, PartialEq, Eq)]
pub struct WeekRow {
    pub weekday_abbrev: &'static str,
    pub date_display: String,
    /// Completed-stint minutes only. Always >= 0 for real data.
    pub minutes: i64,
    /// `(ongoing)` marker: an open stint on a date that is today.
    pub is_ongoing: bool,
    /// `[!]` marker.
    pub has_anomaly: bool,
}

/// Everything `render_week` needs, already computed; `owed` is absent on
/// purpose, the headline states it.
#[derive(Debug, Clone, PartialEq, Eq)]
pub struct WeekView {
    pub week_id_display: String,
    pub span_start_display: String,
    pub span_end_display: String,
    pub headline: String,
    pub rows: [WeekRow; 7],
    pub carry_in_minutes: i64,
    pub worked_minutes: i64,
    pub fulfillment_minutes: i64,
    pub target_minutes: i64,
}

/// One table row's line, newline included.
pub open spec fn row_text(r: WeekRow) -> Seq<char> {
    seq![' ', ' '] + r.weekday_abbrev@ + seq![' '] + r.date_display@ + seq![' ', ' ', ' ']
        + minutes_text(r.minutes as int) + (if r.is_ongoing {
        " (ongoing)"@
    } else {
        Seq::empty()
    }) + (if r.has_anomaly {
        "  [!]"@
    } else {
        Seq::empty()
    }) + seq!['\n']
}

/// The rows' lines, in order.
pub open spec fn rows_text(rows: Seq<WeekRow>) -> Seq<char>
    decreases rows.len(),
{
    if rows.len() == 0 {
        Seq::empty()
    } else {
        rows_text(rows.drop_last()) + row_text(rows.last())
    }
}

/// One line of the trailing block: the label padded to the column, then
/// the duration.
pub open spec fn block_line(label: Seq<char>, minutes: int) -> Seq<char> {
    pad_right(label, WEEK_LABEL_WIDTH as int) + minutes_text(minutes) + seq!['\n']
}

/// The complete rendered week view.
pub open spec fn week_text(v: WeekView) -> Seq<char> {
    "Week "@ + v.week_id_display@ + seq![' ', '('] + v.span_start_display@ + seq![' ', '-', ' ']
        + v.span_end_display@ + seq![')', '\n', '\n'] + v.headline@ + seq!['\n', '\n']
        + rows_text(v.rows@) + seq!['\n'] + block_line("Carry-in:"@, v.carry_in_minutes as int)
        + block_line("Worked:"@, v.worked_minutes as int) + block_line(
        "Fulfillment:"@,
        v.fulfillment_minutes as int,
    ) + block_line("Target:"@, v.target_minutes as int)
}

fn push_row(s: &mut String, row: &WeekRow)
    ensures
        final(s)@ == old(s)@ + row_text(*row),
{
    push_str(s, "  ");
    push_str(s, row.weekday_abbrev);
    push_char(s, ' ');
    push_str(s, row.date_display.as_str());
    push_str(s, "   ");
    push_minutes(s, row.minutes);
    if row.is_ongoing {
        push_str(s, " (ongoing)");
    }
    if row.has_anomaly {
        push_str(s, "  [!]");
    }
    push_char(s, '\n');
    proof {
        reveal_strlit("  ");
        reveal_strlit("   ");
    }
    assert(s@ =~= old(s)@ + row_text(*row));
}

fn push_block_line(s: &mut String, label: &str, minutes: i64)
    ensures
        final(s)@ == old(s)@ + block_line(label@, minutes as int),
{
    push_padded_right(s, label, WEEK_LABEL_WIDTH);
    push_minutes(s, minutes);
    push_char(s, '\n');
    assert(s@ =~= old(s)@ + block_line(label@, minutes as int));
}

/// The sixteen-line table, byte-exact: title, blank, headline, blank, seven
/// rows Monday first, blank, then the carry-in / worked / fulfillment /
/// target block. Pure: no I/O, no clock.
pub fn render_week(view: &WeekView) -> (r: String)
    ensures
        r@ == week_text(*view),
{
    let mut out = String::new();
    push_str(&mut out, "Week ");
    push_str(&mut out, view.week_id_display.as_str());
    push_str(&mut out, " (");
    push_str(&mut out, view.span_start_display.as_str());
    push_str(&mut out, " - ");
    push_str(&mut out, view.span_end_display.as_str());
    push_str(&mut out, ")\n\n");
    push_str(&mut out, view.headline.as_str());
    push_str(&mut out, "\n\n");
    proof {
        reveal_strlit(" (");
        reveal_strlit(" - ");
        reveal_strlit(")\n\n");
        reveal_strlit("\n\n");
    }
    let ghost head = out@;
    assert(head =~= "Week "@ + view.week_id_display@ + seq![' ', '('] + view.span_start_display@
        + seq![' ', '-', ' '] + view.span_end_display@ + seq![')', '\n', '\n'] + view.headline@
        + seq!['\n', '\n']);
    let mut i: usize = 0;
    while i < 7
        invariant
            i <= 7,
            out@ == head + rows_text(view.rows@.take(i as int)),
        decreases 7 - i,
    {
        push_row(&mut out, &view.rows[i]);
        proof {
            assert(view.rows@.take(i + 1).drop_last() =~= view.rows@.take(i as int));
        }
        i = i + 1;
    }
    proof {
        assert(view.rows@.take(7) =~= view.rows@);
    }
    push_char(&mut out, '\n');
    push_block_line(&mut out, "Carry-in:", view.carry_in_minutes);
    push_block_line(&mut out, "Worked:", view.worked_minutes);
    push_block_line(&mut out, "Fulfillment:", view.fulfillment_minutes);
    push_block_line(&mut out, "Target:", view.target_minutes);
    assert(out@ =~= week_text(*view));
    out
}

// ---------------------------------------------------------------------------
// Rows from punches
// ---------------------------------------------------------------------------

/// The punches recorded against date `d`, in their given order.
pub open spec fn on_date(s: Seq<Punch>, d: Date) -> Seq<Punch>
    decreases s.len(),
{
    if s.len() == 0 {
        Seq::empty()
    } else if s.last().date == d {
        on_date(s.drop_last(), d).push(s.last())
    } else {
        on_date(s.drop_last(), d)
    }
}

proof fn lemma_on_date_valid(s: Seq<Punch>, d: Date)
    requires
        all_valid(s),
    ensures
        all_valid(on_date(s, d)),
    decreases s.len(),
{
    if s.len() > 0 {
        let t = s.drop_last();
        assert(all_valid(t)) by {
            assert forall|i: int| 0 <= i < t.len() implies valid_instant((#[trigger] t[i]).at_utc as int) by {
                assert(t[i] == s[i]);
            };
        };
        lemma_on_date_valid(t, d);
        assert(valid_instant(s[s.len() - 1].at_utc as int));
    }
}

/// `at`'s wall-clock time of day in UTC (what `DateTime<Utc>::time` gives).
pub open spec fn utc_hm(at: int) -> (int, int) {
    ((at % 86400) / 3600, (at % 3600) / 60)
}

/// The UTC time of day of an instant.
#[verifier::spinoff_prover]
fn utc_time_of(at: i64) -> (r: Time)
    ensures
        r.hm() == utc_hm(at as int),
{
    let mut secs = at % 86400;
    if secs < 0 {
        secs = secs + 86400;
    }
    assert(secs == (at as int) % 86400);
    let mut minute_secs = at % 3600;
    if minute_secs < 0 {
        minute_secs = minute_secs + 3600;
    }
    assert(minute_secs == (at as int) % 3600);
    let hour = (secs / 3600) as u32;
    let minute = (minute_secs / 60) as u32;
    Time::from_hm_opt(hour, minute).unwrap()
}

/// The orphaned ends' UTC times of day, in order.
fn orphan_utc_times(orphans: &Vec<OrphanedEnd>) -> (r: Vec<Time>)
    ensures
        r@.len() == orphans@.len(),
        forall|i: int| 0 <= i < r@.len() ==> (#[trigger] r@[i]).hm() == utc_hm(orphans@[i].punch.at_utc as int),
{
    let mut out: Vec<Time> = Vec::new();
    let mut i: usize = 0;
    while i < orphans.len()
        invariant
            i <= orphans@.len(),
            out@.len() == i,
            forall|k: int| 0 <= k < i ==> (#[trigger] out@[k]).hm() == utc_hm(orphans@[k].punch.at_utc as int),
        decreases orphans@.len() - i,
    {
        out.push(utc_time_of(orphans[i].punch.at_utc));
        i = i + 1;
    }
    out
}

/// The punches of `punches` recorded against `date`, in order.
fn punches_on(punches: &[Punch], date: &Date) -> (r: Vec<Punch>)
    ensures
        r@ == on_date(punches@, *date),
{
    let mut out: Vec<Punch> = Vec::new();
    let mut i: usize = 0;
    while i < punches.len()
        invariant
            i <= punches@.len(),
            out@ == on_date(punches@.take(i as int), *date),
        decreases punches@.len() - i,
    {
        let p = punches[i];
        proof {
            assert(punches@.take(i + 1).drop_last() =~= punches@.take(i as int));
        }
        if p.date == *date {
            out.push(p);
        }
        i = i + 1;
    }
    assert(punches@.take(punches@.len() as int) =~= punches@);
    out
}

/// What a row's pairing of `date`'s punches yields, at `now`.
pub open spec fn day_of(punches: Seq<Punch>, date: Date, now: i64) -> (Seq<crate::stint::Stint>, Seq<crate::stint::OpenStint>, Seq<OrphanedEnd>) {
    classified(on_date(punches, date), now)
}

/// What `build_rows` owes: each date's pairing has a day total that fits.
pub open spec fn rows_fit(dates: Seq<Date>, punches: Seq<Punch>, now: i64) -> bool {
    forall|i: int| 0 <= i < dates.len() ==> sum_fits(#[trigger] day_of(punches, dates[i], now).0)
}

/// The row that date `date`, the `index`-th of its week, gets.
pub open spec fn row_matches(r: WeekRow, index: int, date: Date, punches: Seq<Punch>, today: Date, now: i64) -> bool {
    let day = day_of(punches, date, now);
    &&& r.weekday_abbrev@ == weekday_abbrev_text(index + 1)
    &&& r.date_display@ == ymd_text(date.y(), date.m(), date.d())
    &&& r.minutes as int == total_minutes(day.0)
    &&& r.is_ongoing == (day.1.len() > 0 && date == today)
    &&& r.has_anomaly == anomaly_rule(day.1.len() as int, day.2.len() as int)
}

fn build_row(index: u32, date: &Date, punches: &[Punch], today: &Date, now: i64) -> (r: WeekRow)
    requires
        index < 7,
        all_valid(punches@),
        valid_instant(now as int),
        sum_fits(day_of(punches@, *date, now).0),
    ensures
        row_matches(r, index as int, *date, punches@, *today, now),
{
    let bucket = punches_on(punches, date);
    proof {
        lemma_on_date_valid(punches@, *date);
    }
    let day = classify(bucket.as_slice(), now);
    let anomalies = Anomalies {
        open_stint_count: day.open.len(),
        orphaned_end_times: orphan_utc_times(&day.orphaned_ends),
    };
    WeekRow {
        weekday_abbrev: weekday_abbrev(index + 1),
        date_display: format_date(date),
        minutes: day.completed_minutes(),
        is_ongoing: day.is_ongoing() && *date == *today,
        has_anomaly: anomalies.has_any(),
    }
}

/// The seven rows for `dates` (Monday first): each date's own punches are
/// paired on their own, one date at a time, so no stint crosses midnight
/// here. A row counts completed stints only; `(ongoing)` needs an open
/// stint on a date that is `today`; `[!]` follows the one anomaly rule.
pub fn build_rows(dates: [Date; 7], punches: &[Punch], today: &Date, now: i64) -> (r: [WeekRow; 7])
    requires
        all_valid(punches@),
        valid_instant(now as int),
        rows_fit(dates@, punches@, now),
    ensures
        forall|i: int| 0 <= i < 7 ==> row_matches(#[trigger] r@[i], i, dates@[i], punches@, *today, now),
{
    assert(sum_fits(day_of(punches@, dates@[0], now).0));
    assert(sum_fits(day_of(punches@, dates@[1], now).0));
    assert(sum_fits(day_of(punches@, dates@[2], now).0));
    assert(sum_fits(day_of(punches@, dates@[3], now).0));
    assert(sum_fits(day_of(punches@, dates@[4], now).0));
    assert(sum_fits(day_of(punches@, dates@[5], now).0));
    assert(sum_fits(day_of(punches@, dates@[6], now).0));
    let r0 = build_row(0, &dates[0], punches, today, now);
    let r1 = build_row(1, &dates[1], punches, today, now);
    let r2 = build_row(2, &dates[2], punches, today, now);
    let r3 = build_row(3, &dates[3], punches, today, now);
    let r4 = build_row(4, &dates[4], punches, today, now);
    let r5 = build_row(5, &dates[5], punches, today, now);
    let r6 = build_row(6, &dates[6], punches, today, now);
    let rows = [r0, r1, r2, r3, r4, r5, r6];
    assert forall|i: int| 0 <= i < 7 implies row_matches(#[trigger] rows@[i], i, dates@[i], punches@, *today, now) by {
        if i == 0 {
            assert(rows@[0] == r0);
        } else if i == 1 {
            assert(rows@[1] == r1);
        } else if i == 2 {
            assert(rows@[2] == r2);
        } else if i == 3 {
            assert(rows@[3] == r3);
        } else if i == 4 {
            assert(rows@[4] == r4);
        } else if i == 5 {
            assert(rows@[5] == r5);
        } else {
            assert(rows@[6] == r6);
        }
    };
    rows
}

// ---------------------------------------------------------------------------
// Laws
// ---------------------------------------------------------------------------

/// How many newlines a text holds.
pub open spec fn newline_count(s: Seq<char>) -> int
    decreases s.len(),
{
    if s.len() == 0 {
        0
    } else {
        newline_count(s.drop_last()) + (if s.last() == '\n' {
            1int
        } else {
            0int
        })
    }
}

/// A text without any newline.
pub open spec fn one_line(s: Seq<char>) -> bool {
    forall|i: int| 0 <= i < s.len() ==> s[i] != '\n'
}

proof fn lemma_newline_count_add(a: Seq<char>, b: Seq<char>)
    ensures
        newline_count(a + b) == newline_count(a) + newline_count(b),
    decreases b.len(),
{
    if b.len() == 0 {
        assert(a + b =~= a);
    } else {
        assert((a + b).drop_last() =~= a + b.drop_last());
        lemma_newline_count_add(a, b.drop_last());
    }
}

proof fn lemma_newline_single()
    ensures
        newline_count(seq!['\n']) == 1,
        newline_count(seq!['\n', '\n']) == 2,
{
    let one = seq!['\n'];
    let two = seq!['\n', '\n'];
    assert(one.drop_last() =~= Seq::<char>::empty());
    assert(newline_count(Seq::<char>::empty()) == 0);
    assert(newline_count(one) == 1);
    assert(two.drop_last() =~= one);
}

proof fn lemma_one_line_count(s: Seq<char>)
    requires
        one_line(s),
    ensures
        newline_count(s) == 0,
    decreases s.len(),
{
    if s.len() > 0 {
        assert(one_line(s.drop_last())) by {
            assert forall|i: int| 0 <= i < s.drop_last().len() implies s.drop_last()[i] != '\n' by {
                assert(s.drop_last()[i] == s[i]);
            };
        };
        lemma_one_line_count(s.drop_last());
    }
}

pub(crate) proof fn lemma_one_line_add(a: Seq<char>, b: Seq<char>)
    requires
        one_line(a),
        one_line(b),
    ensures
        one_line(a + b),
{
    assert forall|i: int| 0 <= i < (a + b).len() implies (a + b)[i] != '\n' by {
        if i < a.len() {
            assert((a + b)[i] == a[i]);
        } else {
            assert((a + b)[i] == b[i - a.len()]);
        }
    };
}

proof fn lemma_digits_one_line(s: Seq<char>)
    requires
        all_digits(s),
    ensures
        one_line(s),
{
    assert forall|i: int| 0 <= i < s.len() implies s[i] != '\n' by {
        assert(crate::text::is_digit(s[i]));
    };
}

pub(crate) proof fn lemma_zero_padded_one_line(n: nat, w: int)
    ensures
        one_line(zero_padded(n, w)),
{
    lemma_zeros(w - decimal(n).len());
    lemma_decimal_reads_back(n);
    lemma_digits_one_line(repeat_char('0', w - decimal(n).len()));
    lemma_digits_one_line(decimal(n));
    lemma_one_line_add(repeat_char('0', w - decimal(n).len()), decimal(n));
}

pub(crate) proof fn lemma_minutes_one_line(m: int)
    ensures
        one_line(minutes_text(m)),
{
    let mag = crate::time::abs(m);
    lemma_zero_padded_one_line((mag / 60) as nat, 2);
    lemma_zero_padded_one_line((mag % 60) as nat, 2);
    let sign: Seq<char> = if m < 0 {
        seq!['-']
    } else {
        Seq::empty()
    };
    assert(one_line(sign));
    assert(one_line(seq!['h', ' ']));
    assert(one_line(seq!['m']));
    lemma_one_line_add(sign, zero_padded((mag / 60) as nat, 2));
    lemma_one_line_add(sign + zero_padded((mag / 60) as nat, 2), seq!['h', ' ']);
    lemma_one_line_add(sign + zero_padded((mag / 60) as nat, 2) + seq!['h', ' '], zero_padded((mag % 60) as nat, 2));
    lemma_one_line_add(sign + zero_padded((mag / 60) as nat, 2) + seq!['h', ' '] + zero_padded((mag % 60) as nat, 2), seq!['m']);
}

pub(crate) proof fn lemma_spaces_one_line(k: int)
    ensures
        one_line(repeat_char(' ', k)),
    decreases k,
{
    if k > 0 {
        lemma_spaces_one_line(k - 1);
        let r = repeat_char(' ', k);
        assert forall|i: int| 0 <= i < r.len() implies r[i] != '\n' by {
            if i < r.len() - 1 {
                assert(r[i] == repeat_char(' ', k - 1)[i]);
            }
        };
    }
}

/// A left-aligned column of a single-line text is a single line.
pub(crate) proof fn lemma_pad_right_one_line(s: Seq<char>, w: int)
    requires
        one_line(s),
    ensures
        one_line(pad_right(s, w)),
{
    lemma_spaces_one_line(w - s.len());
    lemma_one_line_add(s, repeat_char(' ', w - s.len()));
}

/// `HH:MM` is a single line.
pub(crate) proof fn lemma_hm_one_line(h: int, m: int)
    ensures
        one_line(crate::calendar::hm_text(h, m)),
{
    lemma_zero_padded_one_line(h as nat, 2);
    lemma_zero_padded_one_line(m as nat, 2);
    assert(one_line(seq![':']));
    lemma_one_line_add(zero_padded(h as nat, 2), seq![':']);
    lemma_one_line_add(zero_padded(h as nat, 2) + seq![':'], zero_padded(m as nat, 2));
}

proof fn lemma_row_one_newline(r: WeekRow)
    requires
        one_line(r.weekday_abbrev@),
        one_line(r.date_display@),
    ensures
        newline_count(row_text(r)) == 1,
        row_text(r).last() == '\n',
{
    reveal_strlit(" (ongoing)");
    reveal_strlit("  [!]");
    lemma_minutes_one_line(r.minutes as int);
    let ongoing: Seq<char> = if r.is_ongoing {
        " (ongoing)"@
    } else {
        Seq::empty()
    };
    let marker: Seq<char> = if r.has_anomaly {
        "  [!]"@
    } else {
        Seq::empty()
    };
    assert(one_line(ongoing));
    assert(one_line(marker));
    assert(one_line(seq![' ', ' ']));
    assert(one_line(seq![' ']));
    assert(one_line(seq![' ', ' ', ' ']));
    let body = seq![' ', ' '] + r.weekday_abbrev@ + seq![' '] + r.date_display@ + seq![' ', ' ', ' ']
        + minutes_text(r.minutes as int) + ongoing + marker;
    lemma_one_line_add(seq![' ', ' '], r.weekday_abbrev@);
    lemma_one_line_add(seq![' ', ' '] + r.weekday_abbrev@, seq![' ']);
    lemma_one_line_add(seq![' ', ' '] + r.weekday_abbrev@ + seq![' '], r.date_display@);
    lemma_one_line_add(seq![' ', ' '] + r.weekday_abbrev@ + seq![' '] + r.date_display@, seq![' ', ' ', ' ']);
    lemma_one_line_add(seq![' ', ' '] + r.weekday_abbrev@ + seq![' '] + r.date_display@ + seq![' ', ' ', ' '], minutes_text(r.minutes as int));
    lemma_one_line_add(seq![' ', ' '] + r.weekday_abbrev@ + seq![' '] + r.date_display@ + seq![' ', ' ', ' '] + minutes_text(r.minutes as int), ongoing);
    lemma_one_line_add(seq![' ', ' '] + r.weekday_abbrev@ + seq![' '] + r.date_display@ + seq![' ', ' ', ' '] + minutes_text(r.minutes as int) + ongoing, marker);
    lemma_one_line_count(body);
    assert(row_text(r) == body + seq!['\n']);
    lemma_newline_count_add(body, seq!['\n']);
    lemma_newline_single();
}

proof fn lemma_rows_newlines(rows: Seq<WeekRow>)
    requires
        forall|i: int| 0 <= i < rows.len() ==> one_line((#[trigger] rows[i]).weekday_abbrev@) && one_line(rows[i].date_display@),
    ensures
        newline_count(rows_text(rows)) == rows.len(),
    decreases rows.len(),
{
    if rows.len() > 0 {
        let d = rows.drop_last();
        assert forall|i: int| 0 <= i < d.len() implies one_line((#[trigger] d[i]).weekday_abbrev@) && one_line(d[i].date_display@) by {
            assert(d[i] == rows[i]);
        };
        lemma_rows_newlines(d);
        assert(one_line(rows[rows.len() - 1].weekday_abbrev@));
        lemma_row_one_newline(rows.last());
        lemma_newline_count_add(rows_text(d), row_text(rows.last()));
    }
}

proof fn lemma_block_one_newline(label: Seq<char>, m: int)
    requires
        one_line(label),
    ensures
        newline_count(block_line(label, m)) == 1,
{
    lemma_spaces_one_line(WEEK_LABEL_WIDTH as int - label.len());
    lemma_one_line_add(label, repeat_char(' ', WEEK_LABEL_WIDTH as int - label.len()));
    lemma_minutes_one_line(m);
    lemma_one_line_add(pad_right(label, WEEK_LABEL_WIDTH as int), minutes_text(m));
    lemma_one_line_count(pad_right(label, WEEK_LABEL_WIDTH as int) + minutes_text(m));
    lemma_newline_count_add(pad_right(label, WEEK_LABEL_WIDTH as int) + minutes_text(m), seq!['\n']);
    lemma_newline_single();
}

/// The week table is always sixteen lines, each ending in a newline: the
/// title, a blank, the headline, a blank, seven rows, a blank and four
/// block lines (given single-line display texts).
pub proof fn law_week_table_has_sixteen_lines(v: WeekView)
    requires
        one_line(v.week_id_display@),
        one_line(v.span_start_display@),
        one_line(v.span_end_display@),
        one_line(v.headline@),
        forall|i: int| 0 <= i < 7 ==> one_line((#[trigger] v.rows@[i]).weekday_abbrev@) && one_line(v.rows@[i].date_display@),
    ensures
        newline_count(week_text(v)) == 16,
        week_text(v).last() == '\n',
{
    reveal_strlit("Week ");
    reveal_strlit("Carry-in:");
    reveal_strlit("Worked:");
    reveal_strlit("Fulfillment:");
    reveal_strlit("Target:");
    let title = "Week "@ + v.week_id_display@ + seq![' ', '('] + v.span_start_display@ + seq![' ', '-', ' ']
        + v.span_end_display@ + seq![')'];
    assert(one_line("Week "@));
    assert(one_line(seq![' ', '(']));
    assert(one_line(seq![' ', '-', ' ']));
    assert(one_line(seq![')']));
    lemma_one_line_add("Week "@, v.week_id_display@);
    lemma_one_line_add("Week "@ + v.week_id_display@, seq![' ', '(']);
    lemma_one_line_add("Week "@ + v.week_id_display@ + seq![' ', '('], v.span_start_display@);
    lemma_one_line_add("Week "@ + v.week_id_display@ + seq![' ', '('] + v.span_start_display@, seq![' ', '-', ' ']);
    lemma_one_line_add("Week "@ + v.week_id_display@ + seq![' ', '('] + v.span_start_display@ + seq![' ', '-', ' '], v.span_end_display@);
    lemma_one_line_add("Week "@ + v.week_id_display@ + seq![' ', '('] + v.span_start_display@ + seq![' ', '-', ' '] + v.span_end_display@, seq![')']);
    lemma_one_line_count(title);
    lemma_one_line_count(v.headline@);
    let two = seq!['\n', '\n'];
    let one = seq!['\n'];
    lemma_newline_single();
    assert(v.rows@.len() == 7);
    lemma_rows_newlines(v.rows@);
    assert(one_line("Carry-in:"@));
    assert(one_line("Worked:"@));
    assert(one_line("Fulfillment:"@));
    assert(one_line("Target:"@));
    lemma_block_one_newline("Carry-in:"@, v.carry_in_minutes as int);
    lemma_block_one_newline("Worked:"@, v.worked_minutes as int);
    lemma_block_one_newline("Fulfillment:"@, v.fulfillment_minutes as int);
    lemma_block_one_newline("Target:"@, v.target_minutes as int);
    let p1 = title + two;
    let p2 = p1 + v.headline@;
    let p3 = p2 + two;
    let p4 = p3 + rows_text(v.rows@);
    let p5 = p4 + one;
    let b1 = block_line("Carry-in:"@, v.carry_in_minutes as int);
    let b2 = block_line("Worked:"@, v.worked_minutes as int);
    let b3 = block_line("Fulfillment:"@, v.fulfillment_minutes as int);
    let b4 = block_line("Target:"@, v.target_minutes as int);
    lemma_newline_count_add(title, two);
    lemma_newline_count_add(p1, v.headline@);
    lemma_newline_count_add(p2, two);
    lemma_newline_count_add(p3, rows_text(v.rows@));
    lemma_newline_count_add(p4, one);
    lemma_newline_count_add(p5, b1);
    lemma_newline_count_add(p5 + b1, b2);
    lemma_newline_count_add(p5 + b1 + b2, b3);
    lemma_newline_count_add(p5 + b1 + b2 + b3, b4);
    assert(week_text(v) =~= p5 + b1 + b2 + b3 + b4);
}

/// Sum of the rows' minutes.
pub open spec fn rows_minutes(rows: Seq<WeekRow>) -> int
    decreases rows.len(),
{
    if rows.len() == 0 {
        0
    } else {
        rows_minutes(rows.drop_last()) + rows.last().minutes
    }
}

/// The rows of a week add up to what the ledger counts as worked for it,
/// when each date of the week is read on its own (no neighbours, as for
/// the week view): a date's row and its ledger entry pair the same
/// punches, and a date without punches contributes nothing to either.
pub proof fn law_rows_sum_to_week_worked(
    rows: Seq<WeekRow>,
    dates: Seq<Date>,
    punches: Seq<Punch>,
    days: Seq<DayData>,
    today: Date,
    now: i64,
    w: (int, int),
)
    requires
        rows.len() == dates.len(),
        days.len() == dates.len(),
        forall|i: int| 0 <= i < rows.len() ==> row_matches(#[trigger] rows[i], i, dates[i], punches, today, now),
        forall|i: int|
            0 <= i < days.len() ==> {
                &&& (#[trigger] days[i]).date == dates[i]
                &&& days[i].punches@ == on_date(punches, dates[i])
                &&& days[i].prev@.len() == 0
                &&& days[i].next@.len() == 0
                &&& date_week(dates[i]) == w
            },
    ensures
        rows_minutes(rows) == worked_in(days, w, now),
    decreases rows.len(),
{
    if rows.len() > 0 {
        let n = rows.len() - 1;
        let rd = rows.drop_last();
        let dd = dates.drop_last();
        let ds = days.drop_last();
        assert forall|i: int| 0 <= i < rd.len() implies row_matches(#[trigger] rd[i], i, dd[i], punches, today, now) by {
            assert(rd[i] == rows[i]);
            assert(row_matches(rows[i], i, dates[i], punches, today, now));
        };
        assert forall|i: int| 0 <= i < ds.len() implies {
            &&& (#[trigger] ds[i]).date == dd[i]
            &&& ds[i].punches@ == on_date(punches, dd[i])
            &&& ds[i].prev@.len() == 0
            &&& ds[i].next@.len() == 0
            &&& date_week(dd[i]) == w
        } by {
            assert(ds[i] == days[i]);
            assert(days[i].date == dates[i]);
        };
        law_rows_sum_to_week_worked(rd, dd, punches, ds, today, now, w);
        let x = days[n];
        assert(days.last() == x);
        assert(row_matches(rows[n], n, dates[n], punches, today, now));
        assert(x.date == dates[n]);
        let e = Seq::<Punch>::empty();
        assert(x.prev@ =~= e);
        assert(x.next@ =~= e);
        law_classify_at_without_neighbours(x.punches@, now);
        if x.punches@.len() == 0 {
            assert(x.punches@ =~= e);
            assert(sorted_punches(e) =~= e);
            assert(pair_groups(e) == (e, Seq::<Stint>::empty(), Seq::<OrphanedEnd>::empty()));
        }
    }
}

/// A table row's line, without its newline.
pub open spec fn row_line(r: WeekRow) -> Seq<char> {
    seq![' ', ' '] + r.weekday_abbrev@ + seq![' '] + r.date_display@ + seq![' ', ' ', ' ']
        + minutes_text(r.minutes as int) + (if r.is_ongoing {
        " (ongoing)"@
    } else {
        Seq::empty()
    }) + (if r.has_anomaly {
        "  [!]"@
    } else {
        Seq::empty()
    })
}

/// A trailing-block line, without its newline.
pub open spec fn block_line_body(label: Seq<char>, minutes: int) -> Seq<char> {
    pad_right(label, WEEK_LABEL_WIDTH as int) + minutes_text(minutes)
}

/// The title, a blank line, the headline and a blank line.
pub open spec fn week_head_lines(v: WeekView) -> Seq<Seq<char>> {
    seq![
        "Week "@ + v.week_id_display@ + seq![' ', '('] + v.span_start_display@ + seq![' ', '-', ' ']
            + v.span_end_display@ + seq![')'],
        Seq::empty(),
        v.headline@,
        Seq::empty(),
    ]
}

/// A blank line and the four block lines.
pub open spec fn week_tail_lines(v: WeekView) -> Seq<Seq<char>> {
    seq![
        Seq::empty(),
        block_line_body("Carry-in:"@, v.carry_in_minutes as int),
        block_line_body("Worked:"@, v.worked_minutes as int),
        block_line_body("Fulfillment:"@, v.fulfillment_minutes as int),
        block_line_body("Target:"@, v.target_minutes as int),
    ]
}

/// The sixteen lines of the week table, in order.
pub open spec fn week_lines(v: WeekView) -> Seq<Seq<char>> {
    week_head_lines(v) + Seq::new(7, |i: int| row_line(v.rows@[i])) + week_tail_lines(v)
}

proof fn lemma_lines_text_one(x: Seq<char>)
    ensures
        lines_text(seq![x]) == x + seq!['\n'],
{
    assert(seq![x].drop_last() =~= Seq::<Seq<char>>::empty());
    assert(lines_text(Seq::<Seq<char>>::empty()) =~= Seq::<char>::empty());
}

proof fn lemma_rows_text_lines(rows: Seq<WeekRow>)
    ensures
        rows_text(rows) == lines_text(Seq::new(rows.len(), |i: int| row_line(rows[i]))),
    decreases rows.len(),
{
    if rows.len() > 0 {
        let d = rows.drop_last();
        lemma_rows_text_lines(d);
        let all = Seq::new(rows.len(), |i: int| row_line(rows[i]));
        assert(all.drop_last() =~= Seq::new(d.len(), |i: int| row_line(d[i])));
        assert(row_text(rows.last()) =~= row_line(rows.last()) + seq!['\n']);
    }
}

proof fn lemma_lines_text_two(a: Seq<char>, b: Seq<char>)
    ensures
        lines_text(seq![a, b]) == a + seq!['\n'] + b + seq!['\n'],
{
    lemma_lines_text_one(a);
    lemma_lines_text_one(b);
    assert(seq![a, b] =~= seq![a] + seq![b]);
    lemma_lines_text_add(seq![a], seq![b]);
}

proof fn lemma_week_head_text(v: WeekView)
    ensures
        lines_text(week_head_lines(v)) == week_head_lines(v)[0] + seq!['\n', '\n'] + v.headline@
            + seq!['\n', '\n'],
{
    let h = week_head_lines(v);
    lemma_lines_text_two(h[0], Seq::empty());
    lemma_lines_text_two(v.headline@, Seq::empty());
    assert(h =~= seq![h[0], Seq::<char>::empty()] + seq![v.headline@, Seq::<char>::empty()]);
    lemma_lines_text_add(seq![h[0], Seq::<char>::empty()], seq![v.headline@, Seq::<char>::empty()]);
    assert(lines_text(h) =~= h[0] + seq!['\n', '\n'] + v.headline@ + seq!['\n', '\n']);
}

proof fn lemma_week_tail_text(v: WeekView)
    ensures
        lines_text(week_tail_lines(v)) == seq!['\n'] + block_line("Carry-in:"@, v.carry_in_minutes as int)
            + block_line("Worked:"@, v.worked_minutes as int) + block_line(
            "Fulfillment:"@,
            v.fulfillment_minutes as int,
        ) + block_line("Target:"@, v.target_minutes as int),
{
    let t = week_tail_lines(v);
    lemma_lines_text_one(Seq::empty());
    lemma_lines_text_two(t[1], t[2]);
    lemma_lines_text_two(t[3], t[4]);
    assert(t =~= seq![Seq::<char>::empty()] + seq![t[1], t[2]] + seq![t[3], t[4]]);
    lemma_lines_text_add(seq![Seq::<char>::empty()], seq![t[1], t[2]]);
    lemma_lines_text_add(seq![Seq::<char>::empty()] + seq![t[1], t[2]], seq![t[3], t[4]]);
    assert(lines_text(t) =~= seq!['\n'] + (t[1] + seq!['\n']) + (t[2] + seq!['\n']) + (t[3] + seq!['\n'])
        + (t[4] + seq!['\n']));
}

proof fn lemma_week_text_split(v: WeekView)
    ensures
        week_text(v) == (week_head_lines(v)[0] + seq!['\n', '\n'] + v.headline@ + seq!['\n', '\n'])
            + rows_text(v.rows@) + (seq!['\n'] + block_line("Carry-in:"@, v.carry_in_minutes as int)
            + block_line("Worked:"@, v.worked_minutes as int) + block_line(
            "Fulfillment:"@,
            v.fulfillment_minutes as int,
        ) + block_line("Target:"@, v.target_minutes as int)),
{
    assert(week_text(v) =~= (week_head_lines(v)[0] + seq!['\n', '\n'] + v.headline@ + seq!['\n', '\n'])
        + rows_text(v.rows@) + (seq!['\n'] + block_line("Carry-in:"@, v.carry_in_minutes as int)
        + block_line("Worked:"@, v.worked_minutes as int) + block_line(
        "Fulfillment:"@,
        v.fulfillment_minutes as int,
    ) + block_line("Target:"@, v.target_minutes as int)));
}

/// The week table line by line: the title `Week <id> (<start> - <end>)`,
/// a blank line, the headline, a blank line, the seven rows Monday first,
/// a blank line, then `Carry-in:`, `Worked:`, `Fulfillment:` and `Target:`
/// each padded to the label column and followed by its duration; every
/// line ends in a newline.
pub proof fn law_week_table_line_by_line(v: WeekView)
    ensures
        week_lines(v).len() == 16,
        week_text(v) == lines_text(week_lines(v)),
        week_text(v) == join_lines(week_lines(v)) + seq!['\n'],
{
    let head = week_head_lines(v);
    let rows = Seq::new(7, |i: int| row_line(v.rows@[i]));
    let tail = week_tail_lines(v);
    assert(v.rows@.len() == 7);
    lemma_rows_text_lines(v.rows@);
    assert(rows =~= Seq::new(v.rows@.len(), |i: int| row_line(v.rows@[i])));
    lemma_week_head_text(v);
    lemma_week_tail_text(v);
    lemma_lines_text_add(head, rows);
    lemma_lines_text_add(head + rows, tail);
    lemma_week_text_split(v);
    assert(week_lines(v) == head + rows + tail);
    lemma_lines_text_is_joined(week_lines(v));
}

} // verus!
