//! Shared rendering for `status` and `week`: the week-owed headline, the
//! status week line and the anomaly text. Pure: "today" is always
//! injected.

use crate::calendar::{hm_text, iso_week_of, iso_year_of, push_time, weekday_of, Date, Time};
use crate::date::{week_key_text, weekday_full_text, format_weekday_full, WeekId};
use crate::text::{decimal, pad_right, push_char, push_decimal, push_padded_right, push_str};
use crate::time::{minutes_text, push_minutes};
use vstd::prelude::*;

verus! {

/// Width of the left-hand label column (values start at column 16).
pub const LABEL_WIDTH: usize = 15;

/// Which framing the headline uses for a week.
#[derive(Debug, Clone, Copy, PartialEq, Eq, Structural)]
pub enum WeekFraming {
    /// `today` falls inside this week.
    Current,
    /// This week is already over, or has not started yet.
    Closed,
}

/// `today` falls inside `week` (compared as ISO (year, week) pairs).
pub open spec fn is_current(week: WeekId, today: Date) -> bool {
    week.yw() == (iso_year_of(today.num(), today.y()), iso_week_of(today.num(), today.y()))
}

/// `Current` iff `today` falls inside the ISO week `week` -- (ISO year, ISO
/// week) pairs, never calendar years or date ranges.
pub fn week_framing(week: &WeekId, today: &Date) -> (r: WeekFraming)
    ensures
        r == (if is_current(*week, *today) {
            WeekFraming::Current
        } else {
            WeekFraming::Closed
        }),
{
    let today_week = WeekId::from_date(today);
    if week.iso_year() == today_week.iso_year() && week.week() == today_week.week() {
        WeekFraming::Current
    } else {
        WeekFraming::Closed
    }
}

/// The headline's text.
pub open spec fn headline_text(current: bool, owed: int, today: Date) -> Seq<char> {
    if current {
        minutes_text(owed) + " left by end of "@ + weekday_full_text(weekday_of(today.num()))
    } else if owed > 0 {
        "Total still owed: "@ + minutes_text(owed)
    } else {
        "Total ahead: "@ + minutes_text(-owed)
    }
}

fn push_headline(s: &mut String, week: &WeekId, owed_minutes: i64, today: &Date)
    requires
        is_current(*week, *today) || owed_minutes > i64::MIN,
    ensures
        final(s)@ == old(s)@ + headline_text(is_current(*week, *today), owed_minutes as int, *today),
{
    match week_framing(week, today) {
        WeekFraming::Current => {
            push_minutes(s, owed_minutes);
            push_str(s, " left by end of ");
            let name = format_weekday_full(today);
            push_str(s, name.as_str());
        },
        WeekFraming::Closed => {
            if owed_minutes > 0 {
                push_str(s, "Total still owed: ");
                push_minutes(s, owed_minutes);
            } else {
                push_str(s, "Total ahead: ");
                push_minutes(s, -owed_minutes);
            }
        },
    }
    assert(s@ =~= old(s)@ + headline_text(is_current(*week, *today), owed_minutes as int, *today));
}

/// The headline for a week, bare: `HHh MMm left by end of <today's
/// weekday>` for the current week, else `Total still owed: ...` or
/// `Total ahead: ...` with the magnitude.
pub fn week_headline(week: &WeekId, owed_minutes: i64, today: &Date) -> (r: String)
    requires
        is_current(*week, *today) || owed_minutes > i64::MIN,
    ensures
        r@ == headline_text(is_current(*week, *today), owed_minutes as int, *today),
{
    let mut s = String::new();
    push_headline(&mut s, week, owed_minutes, today);
    s
}

/// The parenthetical of the current week's status line.
pub open spec fn parenthetical_text(fulfillment: int, target: int, carry_in: int) -> Seq<char> {
    if carry_in == 0 {
        " (fulfillment "@ + minutes_text(fulfillment) + " / target "@ + minutes_text(target)
            + ")"@
    } else {
        " (fulfillment "@ + minutes_text(fulfillment) + " = worked "@ + minutes_text(
            fulfillment - carry_in,
        ) + " + carry-in "@ + minutes_text(carry_in) + " / target "@ + minutes_text(target)
            + ")"@
    }
}

/// The complete status week line.
pub open spec fn status_week_line_text(
    week: WeekId,
    owed: int,
    fulfillment: int,
    target: int,
    carry_in: int,
    today: Date,
) -> Seq<char> {
    pad_right("Week "@ + week_key_text(week.yw().0, week.yw().1) + seq![':'], LABEL_WIDTH as int)
        + headline_text(is_current(week, today), owed, today) + (if is_current(week, today) {
        parenthetical_text(fulfillment, target, carry_in)
    } else {
        Seq::empty()
    })
}

/// The complete status week line, label and all, e.g.
/// `Week 2026-07:  10h 45m left by end of Thursday (fulfillment 29h 15m / target 40h 00m)`.
pub fn status_week_line(
    week: &WeekId,
    owed_minutes: i64,
    fulfillment_minutes: i64,
    target_minutes: i64,
    carry_in_minutes: i64,
    today: &Date,
) -> (r: String)
    requires
        is_current(*week, *today) || owed_minutes > i64::MIN,
        is_current(*week, *today) ==> i64::MIN <= fulfillment_minutes - carry_in_minutes
            <= i64::MAX,
    ensures
        r@ == status_week_line_text(
            *week,
            owed_minutes as int,
            fulfillment_minutes as int,
            target_minutes as int,
            carry_in_minutes as int,
            *today,
        ),
{
    let mut label = String::new();
    push_str(&mut label, "Week ");
    let key = week.to_key();
    push_str(&mut label, key.as_str());
    push_char(&mut label, ':');
    assert(label@ =~= "Week "@ + week_key_text(week.yw().0, week.yw().1) + seq![':']);
    let mut s = String::new();
    push_padded_right(&mut s, label.as_str(), LABEL_WIDTH);
    push_headline(&mut s, week, owed_minutes, today);
    match week_framing(week, today) {
        WeekFraming::Current => {
            let worked_minutes = fulfillment_minutes - carry_in_minutes;
            push_str(&mut s, " (fulfillment ");
            push_minutes(&mut s, fulfillment_minutes);
            if carry_in_minutes == 0 {
                push_str(&mut s, " / target ");
                push_minutes(&mut s, target_minutes);
                push_str(&mut s, ")");
            } else {
                push_str(&mut s, " = worked ");
                push_minutes(&mut s, worked_minutes);
                push_str(&mut s, " + carry-in ");
                push_minutes(&mut s, carry_in_minutes);
                push_str(&mut s, " / target ");
                push_minutes(&mut s, target_minutes);
                push_str(&mut s, ")");
            }
        },
        WeekFraming::Closed => {},
    }
    assert(s@ =~= status_week_line_text(
        *week,
        owed_minutes as int,
        fulfillment_minutes as int,
        target_minutes as int,
        carry_in_minutes as int,
        *today,
    ));
    s
}

/// One date's pairing anomalies, in the shape the renderers need.
#[derive(Debug, Clone, PartialEq, Eq, Default)]
pub struct Anomalies {
    /// How many unmatched trailing starts (open stints) the date has; 0 or
    /// 1 is normal, 2 or more is the multi-open anomaly.
    pub open_stint_count: usize,
    /// Local wall-clock time of each orphaned end, in the date's punch
    /// order; one entry per orphan, never coalesced.
    pub orphaned_end_times: Vec<Time>,
}

/// The detail lines for `open` open stints and these orphan times.
pub open spec fn detail_lines_spec(open: int, times: Seq<Time>) -> Seq<Seq<char>> {
    (if open > 1 {
        seq!["[!] "@ + decimal(open as nat) + " open stints for this date (unmatched starts)"@]
    } else {
        Seq::empty()
    }) + Seq::new(
        times.len(),
        |i: int|
            "[!] orphaned end at "@ + hm_text(times[i].hm().0, times[i].hm().1)
                + " (no matching start)"@,
    )
}

impl Anomalies {
    /// The single definition of "this date has an anomaly": more than one
    /// open stint, or any orphaned end.
    pub fn has_any(&self) -> (r: bool)
        ensures
            r == (self.open_stint_count > 1 || self.orphaned_end_times@.len() > 0),
    {
        self.open_stint_count > 1 || self.orphaned_end_times.len() > 0
    }

    /// `status`'s form: one `[!] `-prefixed line per anomaly (multi-open
    /// first, then one per orphan); empty when there is none.
    pub fn detail_lines(&self) -> (r: Vec<String>)
        ensures
            r@.len() == detail_lines_spec(
                self.open_stint_count as int,
                self.orphaned_end_times@,
            ).len(),
            forall|i: int|
                0 <= i < r@.len() ==> (#[trigger] r@[i])@ == detail_lines_spec(
                    self.open_stint_count as int,
                    self.orphaned_end_times@,
                )[i],
    {
        let ghost spec_lines = detail_lines_spec(
            self.open_stint_count as int,
            self.orphaned_end_times@,
        );
        let mut out: Vec<String> = Vec::new();
        if self.open_stint_count > 1 {
            let mut line = String::new();
            push_str(&mut line, "[!] ");
            push_decimal(&mut line, self.open_stint_count as u64);
            push_str(&mut line, " open stints for this date (unmatched starts)");
            out.push(line);
        }
        let ghost head: int = out@.len() as int;
        assert(head == (if self.open_stint_count > 1 {
            1int
        } else {
            0int
        }));
        let mut i: usize = 0;
        while i < self.orphaned_end_times.len()
            invariant
                i <= self.orphaned_end_times@.len(),
                spec_lines == detail_lines_spec(
                    self.open_stint_count as int,
                    self.orphaned_end_times@,
                ),
                head == (if self.open_stint_count > 1 {
                    1int
                } else {
                    0int
                }),
                out@.len() == head + i,
                forall|k: int| 0 <= k < out@.len() ==> (#[trigger] out@[k])@ == spec_lines[k],
            decreases self.orphaned_end_times@.len() - i,
        {
            let mut line = String::new();
            push_str(&mut line, "[!] orphaned end at ");
            push_time(&mut line, &self.orphaned_end_times[i]);
            push_str(&mut line, " (no matching start)");
            out.push(line);
            i = i + 1;
        }
        out
    }

    /// `week`'s form: `"  [!]"` when `has_any()`, `""` otherwise.
    pub fn row_marker(&self) -> (r: &'static str)
        ensures
            r@ == (if self.open_stint_count > 1 || self.orphaned_end_times@.len() > 0 {
                "  [!]"@
            } else {
                ""@
            }),
    {
        if self.has_any() {
            "  [!]"
        } else {
            ""
        }
    }
}

/// The one anomaly rule drives both rendering forms: a date has detail
/// lines exactly when it has more than one open stint or any orphaned end.
pub proof fn law_detail_lines_iff_anomaly(open: int, times: Seq<Time>)
    requires
        open >= 0,
    ensures
        (open > 1 || times.len() > 0) <==> detail_lines_spec(open, times).len() > 0,
{
}

/// The row marker is empty exactly when there is no anomaly.
pub proof fn law_row_marker_iff_anomaly(open: int, times: Seq<Time>)
    ensures
        (if open > 1 || times.len() > 0 {
            "  [!]"@
        } else {
            ""@
        }).len() == 0 <==> !(open > 1 || times.len() > 0),
{
    reveal_strlit("  [!]");
    reveal_strlit("");
}

} // verus!
