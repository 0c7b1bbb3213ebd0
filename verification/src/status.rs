//! The `status` view: a pure renderer from a fully computed `StatusView`,
//! and the decisions that turn one date's pairing and its week's
//! accounting into that view.

use crate::calendar::{
    hm_text, local_time_of, push_time, weekday_number, weekday_of, ymd_text, Date, Time,
};
use crate::date::{
    format_date_with_weekday, format_weekday_full, weekday_abbrev_text, weekday_full_text,
};
use crate::render::{
    detail_lines_spec, is_current, status_week_line, status_week_line_text, Anomalies,
};
use crate::calendar::{iso_week_of, iso_year_of};
use crate::date::{yw_lt, WeekId};
use crate::stint::{
    OrphanedEnd,
    all_valid, classified_at, classify_at, opens_valid, orphans_valid, stints_valid, sum_fits,
    total_minutes, DayStints,
};
use crate::storage::Punch;
use crate::week::{entries_map, WeekData, WeekLedger, WeekTargets};
use crate::date::{resolve_date, DateWeekError};
use crate::storage::{valid_instant, Note};
use crate::text::{pad_right, push_char, push_padded_right, push_str};
use crate::week_view::{
    lemma_hm_one_line, lemma_minutes_one_line, lemma_one_line_add, lemma_pad_right_one_line, one_line,
};
use crate::time::{minutes_text, push_minutes};
use crate::week::{daily_target_minutes, WeekAccounting};
use vstd::prelude::*;

verus! {

/// The estimated end-of-day segment's state; `None` in the view is the
/// third case (no open stint, segment omitted).
#[derive(Debug, Clone, Copy, PartialEq, Eq)]
pub enum EodState {
    /// `est. EOD HH:MM`: quota not yet met, `now + gap`.
    At(Time),
    /// `target already met`: the gap is zero or negative.
    TargetAlreadyMet,
}

/// The "X left to <required> required by end of <weekday>" hint; only for
/// today.
#[derive(Debug, Clone, Copy, PartialEq, Eq)]
pub struct DailyTargetHint {
    /// Daily target times `min(today's ISO weekday number, 5)`.
    pub required_minutes: i64,
    /// Signed: `required_minutes - fulfillment` (carry-in included).
    pub gap_minutes: i64,
}

/// A stint line's end: `HH:MM-HH:MM` or `HH:MM-now`.
#[derive(Debug, Clone, Copy, PartialEq, Eq)]
pub enum StintEnd {
    At(Time),
    Now,
}

/// One stint row's data.
#[derive(Debug, Clone, Copy, PartialEq, Eq)]
pub struct StintLine {
    pub start: Time,
    pub end: StintEnd,
    pub duration_minutes: i64,
}

/// Everything `render` needs, already computed and in final form.
#[derive(Debug, Clone, PartialEq, Eq)]
pub struct StatusView {
    /// The header, e.g. `Thu 2026-02-12`.
    pub header: String,
    /// Completed-stints-only total for the date.
    pub day_total_minutes: i64,
    pub has_open_stint: bool,
    /// `Some` only when the date is today.
    pub daily_target: Option<DailyTargetHint>,
    /// Today's full weekday name; `Some` exactly when `daily_target` is.
    pub weekday_name: Option<String>,
    /// `Some` only when the date is today and a stint is open.
    pub eod: Option<EodState>,
    /// The complete week line.
    pub week_line: String,
    /// Anomaly detail lines, already `[!] `-prefixed.
    pub anomaly_lines: Vec<String>,
    /// Stint rows, sorted by start time ascending.
    pub stints: Vec<StintLine>,
    /// Note bodies, in insertion order, verbatim.
    pub notes: Vec<String>,
}

/// Width of the label column (`Day total:` lines up with `Week NN:`).
pub const STATUS_LABEL_WIDTH: usize = 15;

/// The daily-target hint segment of the day-total line.
pub open spec fn hint_text(v: StatusView) -> Seq<char> {
    match v.daily_target {
        Some(h) => ", "@ + minutes_text(
            if h.gap_minutes >= 0 {
                h.gap_minutes as int
            } else {
                -h.gap_minutes
            },
        ) + (if h.gap_minutes >= 0 {
            " left to "@
        } else {
            " over "@
        }) + minutes_text(h.required_minutes as int) + " required by end of "@ + (
        match v.weekday_name {
            Some(n) => n@,
            None => Seq::empty(),
        }),
        None => Seq::empty(),
    }
}

/// The estimated-end-of-day segment of the day-total line.
pub open spec fn eod_text(e: Option<EodState>) -> Seq<char> {
    match e {
        Some(EodState::At(t)) => ", est. EOD "@ + hm_text(t.hm().0, t.hm().1),
        Some(EodState::TargetAlreadyMet) => ", target already met"@,
        None => Seq::empty(),
    }
}

/// The day-total line's text.
pub open spec fn day_total_text(v: StatusView) -> Seq<char> {
    pad_right("Day total:"@, STATUS_LABEL_WIDTH as int) + minutes_text(v.day_total_minutes as int)
        + (if v.has_open_stint {
        " (+ ongoing)"@
    } else {
        Seq::empty()
    }) + hint_text(v) + eod_text(v.eod)
}

/// What `day_total_line` needs: a negative gap's magnitude fits an `i64`.
pub open spec fn hint_renderable(v: StatusView) -> bool {
    v.daily_target matches Some(h) ==> h.gap_minutes > i64::MIN
}

fn push_hint(s: &mut String, view: &StatusView)
    requires
        hint_renderable(*view),
    ensures
        final(s)@ == old(s)@ + hint_text(*view),
{
    match &view.daily_target {
        Some(hint) => {
            push_str(s, ", ");
            if hint.gap_minutes >= 0 {
                push_minutes(s, hint.gap_minutes);
                push_str(s, " left to ");
            } else {
                push_minutes(s, -hint.gap_minutes);
                push_str(s, " over ");
            }
            push_minutes(s, hint.required_minutes);
            push_str(s, " required by end of ");
            match &view.weekday_name {
                Some(name) => push_str(s, name.as_str()),
                None => {},
            }
        },
        None => {},
    }
    assert(s@ =~= old(s)@ + hint_text(*view));
}

fn push_eod(s: &mut String, eod: &Option<EodState>)
    ensures
        final(s)@ == old(s)@ + eod_text(*eod),
{
    match eod {
        Some(EodState::At(t)) => {
            push_str(s, ", est. EOD ");
            push_time(s, t);
        },
        Some(EodState::TargetAlreadyMet) => push_str(s, ", target already met"),
        None => {},
    }
    assert(s@ =~= old(s)@ + eod_text(*eod));
}

/// The day-total line: `Day total:` padded, the total, `(+ ongoing)` when a
/// stint is open, the daily-target hint and the estimated end of day when
/// present.
fn day_total_line(view: &StatusView) -> (r: String)
    requires
        hint_renderable(*view),
    ensures
        r@ == day_total_text(*view),
{
    let mut s = String::new();
    push_padded_right(&mut s, "Day total:", STATUS_LABEL_WIDTH);
    push_minutes(&mut s, view.day_total_minutes);
    if view.has_open_stint {
        push_str(&mut s, " (+ ongoing)");
    }
    push_hint(&mut s, view);
    push_eod(&mut s, &view.eod);
    assert(s@ =~= day_total_text(*view));
    s
}

/// A stint line's `HH:MM-HH:MM` or `HH:MM-now` range.
pub open spec fn range_text(l: StintLine) -> Seq<char> {
    hm_text(l.start.hm().0, l.start.hm().1) + match l.end {
        StintEnd::At(e) => seq!['-'] + hm_text(e.hm().0, e.hm().1),
        StintEnd::Now => "-now"@,
    }
}

/// A stint line: two spaces, the range padded to 11, two spaces, then the
/// duration in parentheses (with `, ongoing` for an open stint).
#[verifier::opaque]
pub open spec fn stint_line_text(l: StintLine) -> Seq<char> {
    "  "@ + pad_right(range_text(l), 11) + "  ("@ + minutes_text(l.duration_minutes as int) + (
    if l.end is Now {
        ", ongoing"@
    } else {
        Seq::empty()
    }) + ")"@
}

fn stint_line(line: &StintLine) -> (r: String)
    ensures
        r@ == stint_line_text(*line),
{
    let mut range = String::new();
    push_time(&mut range, &line.start);
    match &line.end {
        StintEnd::At(end) => {
            push_char(&mut range, '-');
            push_time(&mut range, end);
        },
        StintEnd::Now => push_str(&mut range, "-now"),
    }
    assert(range@ =~= range_text(*line));
    let mut s = String::new();
    push_str(&mut s, "  ");
    push_padded_right(&mut s, range.as_str(), 11);
    push_str(&mut s, "  (");
    push_minutes(&mut s, line.duration_minutes);
    match &line.end {
        StintEnd::Now => push_str(&mut s, ", ongoing"),
        StintEnd::At(_) => {},
    }
    push_str(&mut s, ")");
    proof {
        reveal(stint_line_text);
    }
    assert(s@ =~= stint_line_text(*line));
    s
}

/// Lines, each followed by a newline.
pub open spec fn lines_text(lines: Seq<Seq<char>>) -> Seq<char>
    decreases lines.len(),
{
    if lines.len() == 0 {
        Seq::empty()
    } else {
        lines_text(lines.drop_last()) + lines.last() + seq!['\n']
    }
}

pub(crate) proof fn lemma_lines_text_add(a: Seq<Seq<char>>, b: Seq<Seq<char>>)
    ensures
        lines_text(a + b) == lines_text(a) + lines_text(b),
    decreases b.len(),
{
    if b.len() == 0 {
        assert(a + b =~= a);
    } else {
        assert((a + b).drop_last() =~= a + b.drop_last());
        lemma_lines_text_add(a, b.drop_last());
    }
}

/// The anomaly section's lines (a blank line first), empty when there is
/// none.
pub open spec fn anomaly_section(v: StatusView) -> Seq<Seq<char>> {
    if v.anomaly_lines@.len() == 0 {
        Seq::empty()
    } else {
        seq![Seq::empty()] + Seq::new(v.anomaly_lines@.len(), |i: int| v.anomaly_lines@[i]@)
    }
}

/// The stint section's lines (a blank line first), empty when there is
/// none.
pub open spec fn stint_section(v: StatusView) -> Seq<Seq<char>> {
    if v.stints@.len() == 0 {
        Seq::empty()
    } else {
        seq![Seq::empty()] + Seq::new(v.stints@.len(), |i: int| stint_line_text(v.stints@[i]))
    }
}

/// The notes section's lines (a blank line and `Notes:` first), empty when
/// there is none.
pub open spec fn notes_section(v: StatusView) -> Seq<Seq<char>> {
    if v.notes@.len() == 0 {
        Seq::empty()
    } else {
        seq![Seq::empty(), "Notes:"@] + Seq::new(v.notes@.len(), |i: int| "  - "@ + v.notes@[i]@)
    }
}

/// Every line of the status view, in order.
pub open spec fn status_lines(v: StatusView) -> Seq<Seq<char>> {
    seq![v.header@, Seq::empty(), day_total_text(v), v.week_line@] + anomaly_section(v)
        + stint_section(v) + notes_section(v)
}

/// Appends each of `lines`, each followed by a newline.
fn push_lines(s: &mut String, lines: &Vec<String>)
    ensures
        final(s)@ == old(s)@ + lines_text(Seq::new(lines@.len(), |i: int| lines@[i]@)),
{
    let ghost all = Seq::new(lines@.len(), |i: int| lines@[i]@);
    let mut i: usize = 0;
    while i < lines.len()
        invariant
            i <= lines@.len(),
            all == Seq::new(lines@.len(), |i: int| lines@[i]@),
            s@ == old(s)@ + lines_text(all.take(i as int)),
        decreases lines@.len() - i,
    {
        push_str(s, lines[i].as_str());
        push_char(s, '\n');
        proof {
            assert(all.take(i + 1).drop_last() =~= all.take(i as int));
        }
        i = i + 1;
    }
    proof {
        assert(all.take(lines@.len() as int) =~= all);
    }
}

fn push_anomaly_section(s: &mut String, view: &StatusView)
    ensures
        final(s)@ == old(s)@ + lines_text(anomaly_section(*view)),
{
    if view.anomaly_lines.len() > 0 {
        push_char(s, '\n');
        push_lines(s, &view.anomaly_lines);
        proof {
            let body = Seq::new(view.anomaly_lines@.len(), |i: int| view.anomaly_lines@[i]@);
            lemma_lines_text_add(seq![Seq::<char>::empty()], body);
            reveal_with_fuel(lines_text, 2);
            assert(lines_text(seq![Seq::<char>::empty()]) =~= seq!['\n']);
        }
    }
    assert(s@ =~= old(s)@ + lines_text(anomaly_section(*view)));
}

fn push_stint_section(s: &mut String, view: &StatusView)
    ensures
        final(s)@ == old(s)@ + lines_text(stint_section(*view)),
{
    if view.stints.len() > 0 {
        push_char(s, '\n');
        let ghost before = s@;
        let mut i: usize = 0;
        let ghost body = Seq::new(view.stints@.len(), |i: int| stint_line_text(view.stints@[i]));
        while i < view.stints.len()
            invariant
                i <= view.stints@.len(),
                body == Seq::new(view.stints@.len(), |i: int| stint_line_text(view.stints@[i])),
                s@ == before + lines_text(body.take(i as int)),
            decreases view.stints@.len() - i,
        {
            let line = stint_line(&view.stints[i]);
            push_str(s, line.as_str());
            push_char(s, '\n');
            proof {
                assert(body.take(i + 1).drop_last() =~= body.take(i as int));
            }
            i = i + 1;
        }
        proof {
            assert(body.take(view.stints@.len() as int) =~= body);
            lemma_lines_text_add(seq![Seq::<char>::empty()], body);
            reveal_with_fuel(lines_text, 2);
            assert(lines_text(seq![Seq::<char>::empty()]) =~= seq!['\n']);
        }
    }
    assert(s@ =~= old(s)@ + lines_text(stint_section(*view)));
}

fn push_notes_section(s: &mut String, view: &StatusView)
    ensures
        final(s)@ == old(s)@ + lines_text(notes_section(*view)),
{
    if view.notes.len() > 0 {
        push_str(s, "\nNotes:\n");
        let ghost before = s@;
        let mut i: usize = 0;
        let ghost body = Seq::new(view.notes@.len(), |i: int| "  - "@ + view.notes@[i]@);
        while i < view.notes.len()
            invariant
                i <= view.notes@.len(),
                body == Seq::new(view.notes@.len(), |i: int| "  - "@ + view.notes@[i]@),
                s@ == before + lines_text(body.take(i as int)),
            decreases view.notes@.len() - i,
        {
            push_str(s, "  - ");
            push_str(s, view.notes[i].as_str());
            push_char(s, '\n');
            proof {
                assert(body.take(i + 1).drop_last() =~= body.take(i as int));
            }
            i = i + 1;
        }
        proof {
            reveal_strlit("\nNotes:\n");
            reveal_strlit("Notes:");
            assert(body.take(view.notes@.len() as int) =~= body);
            lemma_lines_text_add(seq![Seq::<char>::empty(), "Notes:"@], body);
            reveal_with_fuel(lines_text, 3);
            assert(lines_text(seq![Seq::<char>::empty(), "Notes:"@]) =~= "\nNotes:\n"@);
        }
    }
    assert(s@ =~= old(s)@ + lines_text(notes_section(*view)));
}

/// The complete status view text: one line per element, each ending in a
/// newline, sections omitted when empty, no trailing blank line. Pure.
pub fn render(view: &StatusView) -> (r: String)
    requires
        hint_renderable(*view),
    ensures
        r@ == lines_text(status_lines(*view)),
{
    let mut out = String::new();
    push_str(&mut out, view.header.as_str());
    push_str(&mut out, "\n\n");
    let day = day_total_line(view);
    push_str(&mut out, day.as_str());
    push_char(&mut out, '\n');
    push_str(&mut out, view.week_line.as_str());
    push_char(&mut out, '\n');
    let ghost head = seq![view.header@, Seq::empty(), day_total_text(*view), view.week_line@];
    proof {
        reveal_strlit("\n\n");
        reveal_with_fuel(lines_text, 5);
        assert(out@ =~= lines_text(head));
    }
    push_anomaly_section(&mut out, view);
    push_stint_section(&mut out, view);
    push_notes_section(&mut out, view);
    proof {
        lemma_lines_text_add(head, anomaly_section(*view));
        lemma_lines_text_add(head + anomaly_section(*view), stint_section(*view));
        lemma_lines_text_add(head + anomaly_section(*view) + stint_section(*view), notes_section(*view));
        assert(status_lines(*view) == head + anomaly_section(*view) + stint_section(*view) + notes_section(*view));
    }
    out
}

/// The status week line for an accounting row: the one place the row's
/// fields are handed to `status_week_line`, by name.
pub fn week_line(acct: &WeekAccounting, today: &Date) -> (r: String)
    requires
        is_current(acct.week, *today) || acct.owed > i64::MIN,
        is_current(acct.week, *today) ==> i64::MIN <= acct.fulfillment - acct.carry_in <= i64::MAX,
    ensures
        r@ == status_week_line_text(
            acct.week,
            acct.owed as int,
            acct.fulfillment as int,
            acct.target as int,
            acct.carry_in as int,
            *today,
        ),
{
    status_week_line(&acct.week, acct.owed, acct.fulfillment, acct.target, acct.carry_in, today)
}

// ---------------------------------------------------------------------------
// From a date's pairing to the view
// ---------------------------------------------------------------------------

/// A real time of day.
pub open spec fn real_time(t: Time) -> bool {
    t.hm().0 < 24 && t.hm().1 < 60
}

/// Every time of `s` is a real time of day.
pub open spec fn real_times(s: Seq<Time>) -> bool {
    forall|i: int| 0 <= i < s.len() ==> real_time(#[trigger] s[i])
}

/// An element-for-element copy of a list of times.
fn copy_times(v: &Vec<Time>) -> (r: Vec<Time>)
    ensures
        r@ == v@,
{
    let mut out: Vec<Time> = Vec::new();
    let mut i: usize = 0;
    while i < v.len()
        invariant
            i <= v@.len(),
            out@ == v@.take(i as int),
        decreases v@.len() - i,
    {
        out.push(v[i]);
        proof {
            assert(v@.take(i + 1) =~= v@.take(i as int).push(v@[i as int]));
        }
        i = i + 1;
    }
    assert(v@.take(v@.len() as int) =~= v@);
    out
}

/// The renderer's anomaly input for a date, given the local wall-clock
/// reading of each orphaned end's instant (`times[i]` reads the `i`-th
/// orphaned end): its open-stint count and those readings, in order.
pub fn to_anomalies_at(day: &DayStints, times: &Vec<Time>) -> (r: Anomalies)
    requires
        times@.len() == day.orphaned_ends@.len(),
    ensures
        r.open_stint_count == day.open@.len(),
        r.orphaned_end_times@ == times@,
{
    Anomalies { open_stint_count: day.open.len(), orphaned_end_times: copy_times(times) }
}

/// The local wall-clock reading of each orphaned end's instant, in order.
fn read_orphan_times(orphans: &Vec<OrphanedEnd>) -> (r: Vec<Time>)
    requires
        orphans_valid(orphans@),
    ensures
        r@.len() == orphans@.len(),
        real_times(r@),
{
    let mut times: Vec<Time> = Vec::new();
    let mut i: usize = 0;
    while i < orphans.len()
        invariant
            i <= orphans@.len(),
            times@.len() == i,
            orphans_valid(orphans@),
            real_times(times@),
        decreases orphans@.len() - i,
    {
        let t = local_time_of(orphans[i].punch.at_utc);
        t.valid();
        times.push(t);
        i = i + 1;
    }
    times
}

/// The renderer's anomaly input for a date: its open-stint count, and the
/// local time of each orphaned end, in order (see `to_anomalies_at`).
pub fn to_anomalies(day: &DayStints) -> (r: Anomalies)
    requires
        orphans_valid(day.orphaned_ends@),
    ensures
        r.open_stint_count == day.open@.len(),
        r.orphaned_end_times@.len() == day.orphaned_ends@.len(),
        real_times(r.orphaned_end_times@),
{
    let times = read_orphan_times(&day.orphaned_ends);
    to_anomalies_at(day, &times)
}

/// A stint line's sort key: its start as minutes after midnight.
pub open spec fn line_key(l: StintLine) -> int {
    l.start.hm().0 * 60 + l.start.hm().1
}

/// Where a stable insertion puts `l` into `s`.
pub open spec fn line_insert_pos(s: Seq<StintLine>, l: StintLine) -> int
    decreases s.len(),
{
    if s.len() == 0 {
        0
    } else if line_key(l) < line_key(s.last()) {
        line_insert_pos(s.drop_last(), l)
    } else {
        s.len() as int
    }
}

/// The stable sort of stint lines by start time (insertion of each line in
/// order).
pub open spec fn sorted_lines(s: Seq<StintLine>) -> Seq<StintLine>
    decreases s.len(),
{
    if s.len() == 0 {
        Seq::empty()
    } else {
        let rest = sorted_lines(s.drop_last());
        rest.insert(line_insert_pos(rest, s.last()), s.last())
    }
}

/// Start times never decrease along `s`.
pub open spec fn by_start(s: Seq<StintLine>) -> bool {
    forall|i: int, j: int| 0 <= i < j < s.len() ==> line_key(s[i]) <= line_key(s[j])
}

proof fn lemma_line_insert_pos(s: Seq<StintLine>, l: StintLine)
    requires
        by_start(s),
    ensures
        0 <= line_insert_pos(s, l) <= s.len(),
        forall|i: int| 0 <= i < line_insert_pos(s, l) ==> line_key(s[i]) <= line_key(l),
        forall|i: int| line_insert_pos(s, l) <= i < s.len() ==> line_key(l) < line_key(s[i]),
    decreases s.len(),
{
    if s.len() > 0 {
        let d = s.drop_last();
        assert(by_start(d));
        lemma_line_insert_pos(d, l);
        let k = line_insert_pos(s, l);
        if line_key(l) < line_key(s.last()) {
            assert forall|i: int| 0 <= i < k implies line_key(s[i]) <= line_key(l) by {
                assert(s[i] == d[i]);
            };
            assert forall|i: int| k <= i < s.len() implies line_key(l) < line_key(s[i]) by {
                if i < s.len() - 1 {
                    assert(s[i] == d[i]);
                }
            };
        } else {
            assert forall|i: int| 0 <= i < k implies line_key(s[i]) <= line_key(l) by {
                if i < s.len() - 1 {
                    assert(line_key(s[i]) <= line_key(s[s.len() - 1]));
                }
            };
        }
    }
}

fn line_key_of(l: &StintLine) -> (r: u32)
    ensures
        r as int == line_key(*l),
{
    l.start.valid();
    l.start.hour() * 60 + l.start.minute()
}

proof fn lemma_sorted_lines(s: Seq<StintLine>)
    ensures
        sorted_lines(s).len() == s.len(),
        by_start(sorted_lines(s)),
    decreases s.len(),
{
    if s.len() > 0 {
        lemma_sorted_lines(s.drop_last());
        let rest = sorted_lines(s.drop_last());
        let l = s.last();
        lemma_line_insert_pos(rest, l);
        let k = line_insert_pos(rest, l);
        let r = rest.insert(k, l);
        assert forall|i: int, j: int| 0 <= i < j < r.len() implies line_key(r[i]) <= line_key(r[j]) by {
            if j < k {
                assert(r[i] == rest[i] && r[j] == rest[j]);
            } else if j == k {
                assert(r[i] == rest[i]);
            } else if i < k {
                assert(r[i] == rest[i] && r[j] == rest[j - 1]);
            } else if i == k {
                assert(r[j] == rest[j - 1]);
            } else {
                assert(r[i] == rest[i - 1] && r[j] == rest[j - 1]);
            }
        };
    }
}

/// Stable sort of stint lines by start time.
pub fn sort_stint_lines(lines: Vec<StintLine>) -> (r: Vec<StintLine>)
    ensures
        r@ == sorted_lines(lines@),
        by_start(r@),
{
    let mut out: Vec<StintLine> = Vec::new();
    let mut i: usize = 0;
    while i < lines.len()
        invariant
            i <= lines@.len(),
            out@ == sorted_lines(lines@.take(i as int)),
        decreases lines@.len() - i,
    {
        let l = lines[i];
        let mut pos: usize = out.len();
        proof {
            assert(out@.take(pos as int) =~= out@);
        }
        let key = line_key_of(&l);
        while pos > 0 && key < line_key_of(&out[pos - 1])
            invariant
                pos <= out@.len(),
                key == line_key(l),
                line_insert_pos(out@, l) == line_insert_pos(out@.take(pos as int), l),
            decreases pos,
        {
            proof {
                assert(out@.take(pos as int).drop_last() =~= out@.take(pos - 1));
            }
            pos = pos - 1;
        }
        proof {
            if pos == 0 {
                assert(out@.take(0) =~= Seq::<StintLine>::empty());
            } else {
                assert(out@.take(pos as int).last() == out@[pos - 1]);
            }
            assert(line_insert_pos(out@, l) == pos);
            assert(lines@.take(i + 1).drop_last() =~= lines@.take(i as int));
            assert(lines@.take(i + 1).last() == l);
            lemma_sorted_lines(lines@.take(i as int));
            lemma_line_insert_pos(out@, l);
        }
        out.insert(pos, l);
        i = i + 1;
    }
    assert(lines@.take(lines@.len() as int) =~= lines@);
    proof {
        lemma_sorted_lines(lines@);
    }
    out
}

/// The unsorted stint rows of a date, from the local wall-clock readings
/// of its instants: one per completed stint (`starts[i]`/`ends[i]` read
/// the `i`-th completed stint's start and end), then one per open stint
/// (`opens[i]` reads the `i`-th open stint's start, the row ending `Now`),
/// each with its minutes.
pub open spec fn raw_rows(day: DayStints, starts: Seq<Time>, ends: Seq<Time>, opens: Seq<Time>) -> Seq<
    StintLine,
> {
    let c = day.completed@.len() as int;
    Seq::new(
        (c + day.open@.len()) as nat,
        |i: int|
            if i < c {
                StintLine {
                    start: starts[i],
                    end: StintEnd::At(ends[i]),
                    duration_minutes: day.completed@[i].minutes,
                }
            } else {
                StintLine {
                    start: opens[i - c],
                    end: StintEnd::Now,
                    duration_minutes: day.open@[i - c].minutes_so_far,
                }
            },
    )
}

/// The date's stint rows, given the local readings of its instants (see
/// `raw_rows`), sorted by start time (stable, so a tie keeps completed
/// before open, each in its own order).
pub fn build_stint_lines_at(day: &DayStints, starts: &Vec<Time>, ends: &Vec<Time>, opens: &Vec<Time>) -> (r:
    Vec<StintLine>)
    requires
        starts@.len() == day.completed@.len(),
        ends@.len() == day.completed@.len(),
        opens@.len() == day.open@.len(),
    ensures
        r@ == sorted_lines(raw_rows(*day, starts@, ends@, opens@)),
        by_start(r@),
{
    let ghost raw = raw_rows(*day, starts@, ends@, opens@);
    let mut rows: Vec<StintLine> = Vec::new();
    let mut i: usize = 0;
    while i < day.completed.len()
        invariant
            i <= day.completed@.len(),
            starts@.len() == day.completed@.len(),
            ends@.len() == day.completed@.len(),
            opens@.len() == day.open@.len(),
            raw == raw_rows(*day, starts@, ends@, opens@),
            rows@ == raw.take(i as int),
        decreases day.completed@.len() - i,
    {
        rows.push(
            StintLine {
                start: starts[i],
                end: StintEnd::At(ends[i]),
                duration_minutes: day.completed[i].minutes,
            },
        );
        proof {
            assert(rows@ =~= raw.take(i + 1));
        }
        i = i + 1;
    }
    let c = day.completed.len();
    let mut j: usize = 0;
    while j < day.open.len()
        invariant
            j <= day.open@.len(),
            c == day.completed@.len(),
            opens@.len() == day.open@.len(),
            raw == raw_rows(*day, starts@, ends@, opens@),
            rows@ == raw.take(c + j),
        decreases day.open@.len() - j,
    {
        rows.push(
            StintLine { start: opens[j], end: StintEnd::Now, duration_minutes: day.open[j].minutes_so_far },
        );
        proof {
            assert(rows@ =~= raw.take(c + j + 1));
        }
        j = j + 1;
    }
    assert(rows@ =~= raw);
    sort_stint_lines(rows)
}

/// The local wall-clock readings of a date's stint instants: each
/// completed stint's start and end, and each open stint's start.
fn read_stint_times(day: &DayStints) -> (r: (Vec<Time>, Vec<Time>, Vec<Time>))
    requires
        stints_valid(day.completed@),
        opens_valid(day.open@),
    ensures
        r.0@.len() == day.completed@.len(),
        r.1@.len() == day.completed@.len(),
        r.2@.len() == day.open@.len(),
        real_times(r.0@),
        real_times(r.1@),
        real_times(r.2@),
{
    let mut starts: Vec<Time> = Vec::new();
    let mut ends: Vec<Time> = Vec::new();
    let mut i: usize = 0;
    while i < day.completed.len()
        invariant
            i <= day.completed@.len(),
            stints_valid(day.completed@),
            starts@.len() == i,
            ends@.len() == i,
            real_times(starts@),
            real_times(ends@),
        decreases day.completed@.len() - i,
    {
        let s = day.completed[i];
        let a = local_time_of(s.start.at_utc);
        let b = local_time_of(s.end.at_utc);
        a.valid();
        b.valid();
        starts.push(a);
        ends.push(b);
        i = i + 1;
    }
    let mut opens: Vec<Time> = Vec::new();
    let mut j: usize = 0;
    while j < day.open.len()
        invariant
            j <= day.open@.len(),
            opens_valid(day.open@),
            opens@.len() == j,
            real_times(opens@),
        decreases day.open@.len() - j,
    {
        let t = local_time_of(day.open[j].start.at_utc);
        t.valid();
        opens.push(t);
        j = j + 1;
    }
    (starts, ends, opens)
}

/// The date's stint rows, each read in local wall-clock time (see
/// `build_stint_lines_at`).
pub fn build_stint_lines(day: &DayStints) -> (r: Vec<StintLine>)
    requires
        stints_valid(day.completed@),
        opens_valid(day.open@),
    ensures
        exists|starts: Seq<Time>, ends: Seq<Time>, opens: Seq<Time>|
            starts.len() == day.completed@.len() && ends.len() == day.completed@.len() && opens.len()
                == day.open@.len() && real_times(starts) && real_times(ends) && real_times(opens)
                && r@ == sorted_lines(#[trigger] raw_rows(*day, starts, ends, opens)),
        by_start(r@),
{
    let (starts, ends, opens) = read_stint_times(day);
    build_stint_lines_at(day, &starts, &ends, &opens)
}

/// The date `status` shows: today when no argument is given, otherwise the
/// argument resolved against today (future dates allowed).
pub fn status_date(date_arg: Option<&str>, today: &Date) -> (r: Result<Date, DateWeekError>)
    ensures
        date_arg is None ==> r == Ok::<Date, DateWeekError>(*today),
        date_arg matches Some(s) ==> (match r {
            Ok(d) => crate::date::resolves_to(s@, *today, d),
            Err(e) => crate::date::resolve_fails(s@, *today, e.cause) && e.input@ == s@,
        }),
{
    match date_arg {
        None => Ok(*today),
        Some(s) => resolve_date(s, today),
    }
}

/// `min(ISO weekday number of today, 5)`: Saturday and Sunday count as
/// Friday.
pub open spec fn pace_days(today: Date) -> int {
    let w = weekday_of(today.num());
    if w < 5 {
        w
    } else {
        5
    }
}

/// Minutes required by the end of today: the daily target (the week's
/// target divided by 5, floored) times `pace_days`.
pub open spec fn required_minutes(target: int, today: Date) -> int {
    (target / 5) * pace_days(today)
}

/// What `status_view` needs of its inputs: valid instants, figures that
/// fit an `i64`, and an end-of-day instant that exists.
pub open spec fn status_inputs_ok(
    date: Date,
    today: Date,
    now: i64,
    day: DayStints,
    acct: WeekAccounting,
) -> bool {
    let required = required_minutes(acct.target as int, today);
    let gap = required - acct.fulfillment;
    &&& valid_instant(now as int)
    &&& sum_fits(day.completed@)
    &&& stints_valid(day.completed@)
    &&& opens_valid(day.open@)
    &&& orphans_valid(day.orphaned_ends@)
    &&& (is_current(acct.week, today) || acct.owed > i64::MIN)
    &&& (is_current(acct.week, today) ==> i64::MIN <= acct.fulfillment - acct.carry_in
        <= i64::MAX)
    &&& (date == today ==> {
        &&& i64::MIN <= required <= i64::MAX
        &&& i64::MIN < gap <= i64::MAX
        &&& (gap > 0 && day.open@.len() > 0 ==> valid_instant(now + gap * 60))
    })
}

/// The local wall-clock readings a date's status view shows, taken by the
/// caller in the machine's time zone: `completed_starts[i]` and
/// `completed_ends[i]` read the `i`-th completed stint's start and end
/// instants, `open_starts[i]` the `i`-th open stint's start,
/// `orphans[i]` the `i`-th orphaned end, and `eod` the estimated
/// end-of-day instant (`eod_instant`; any time when there is none).
#[derive(Debug, Clone)]
pub struct LocalReadings {
    pub completed_starts: Vec<Time>,
    pub completed_ends: Vec<Time>,
    pub open_starts: Vec<Time>,
    pub orphans: Vec<Time>,
    pub eod: Time,
}

/// One reading per instant of `day`, each a real time of day.
pub open spec fn readings_fit(rd: LocalReadings, day: DayStints) -> bool {
    &&& rd.completed_starts@.len() == day.completed@.len()
    &&& rd.completed_ends@.len() == day.completed@.len()
    &&& rd.open_starts@.len() == day.open@.len()
    &&& rd.orphans@.len() == day.orphaned_ends@.len()
    &&& real_times(rd.completed_starts@)
    &&& real_times(rd.completed_ends@)
    &&& real_times(rd.open_starts@)
    &&& real_times(rd.orphans@)
    &&& real_time(rd.eod)
}

/// The daily-target hint of a week's accounting on `today`.
pub fn daily_target_hint(acct: &WeekAccounting, today: &Date) -> (r: DailyTargetHint)
    requires
        i64::MIN <= required_minutes(acct.target as int, *today) <= i64::MAX,
        i64::MIN <= required_minutes(acct.target as int, *today) - acct.fulfillment <= i64::MAX,
    ensures
        r.required_minutes == required_minutes(acct.target as int, *today),
        r.gap_minutes == required_minutes(acct.target as int, *today) - acct.fulfillment,
{
    let daily = daily_target_minutes(acct.target);
    let w = weekday_number(today);
    let days: i64 = if w < 5 {
        w as i64
    } else {
        5
    };
    let required = daily * days;
    let gap = required - acct.fulfillment;
    DailyTargetHint { required_minutes: required, gap_minutes: gap }
}

/// The estimated end-of-day instant: `now` plus the remaining gap, in
/// minutes.
pub fn eod_instant(now: i64, gap_minutes: i64) -> (r: i64)
    requires
        i64::MIN <= gap_minutes * 60 <= i64::MAX,
        i64::MIN <= now + gap_minutes * 60 <= i64::MAX,
    ensures
        r == now + gap_minutes * 60,
{
    now + gap_minutes * 60
}

/// What the status view of `date` seen at `now` (local date `today`) is,
/// given the local readings `rd` of its instants: the header, the day
/// total (completed stints only), the ongoing flag, today's hint, weekday
/// name and end-of-day estimate (`At` the reading of `eod_instant` while
/// the gap is positive), the week line relative to today, the anomaly
/// lines from the readings of the orphaned ends, the stint rows from the
/// readings of the stint instants, and the notes in order.
pub open spec fn status_view_of(
    r: StatusView,
    date: Date,
    today: Date,
    day: DayStints,
    acct: WeekAccounting,
    notes: Seq<Note>,
    rd: LocalReadings,
) -> bool {
    let required = required_minutes(acct.target as int, today);
    let gap = required - acct.fulfillment;
    let anomalies = detail_lines_spec(day.open@.len() as int, rd.orphans@);
    &&& r.header@ == weekday_abbrev_text(weekday_of(date.num())) + seq![' '] + ymd_text(
        date.y(),
        date.m(),
        date.d(),
    )
    &&& r.day_total_minutes as int == total_minutes(day.completed@)
    &&& r.has_open_stint == (day.open@.len() > 0)
    &&& date == today ==> r.daily_target == Some(
        DailyTargetHint { required_minutes: required as i64, gap_minutes: gap as i64 },
    )
    &&& date != today ==> r.daily_target is None
    &&& date == today ==> (r.weekday_name matches Some(n) && n@ == weekday_full_text(
        weekday_of(today.num()),
    ))
    &&& date != today ==> r.weekday_name is None
    &&& (date != today || day.open@.len() == 0) ==> r.eod is None
    &&& (date == today && day.open@.len() > 0) ==> r.eod == (if gap > 0 {
        Some(EodState::At(rd.eod))
    } else {
        Some(EodState::TargetAlreadyMet)
    })
    &&& r.week_line@ == status_week_line_text(
        acct.week,
        acct.owed as int,
        acct.fulfillment as int,
        acct.target as int,
        acct.carry_in as int,
        today,
    )
    &&& r.anomaly_lines@.len() == anomalies.len()
    &&& forall|i: int| 0 <= i < r.anomaly_lines@.len() ==> (#[trigger] r.anomaly_lines@[i])@ == anomalies[i]
    &&& r.stints@ == sorted_lines(
        raw_rows(day, rd.completed_starts@, rd.completed_ends@, rd.open_starts@),
    )
    &&& by_start(r.stints@)
    &&& r.notes@.len() == notes.len()
    &&& forall|i: int| 0 <= i < notes.len() ==> (#[trigger] r.notes@[i])@ == notes[i].body@
    &&& hint_renderable(r)
}

/// The view of `date` as seen at `now` (whose local date is `today`), from
/// the date's pairing (with its neighbours already taken into account),
/// the accounting of the date's own week, the date's notes in order, and
/// the local readings of its instants (see `LocalReadings`). The
/// daily-target hint, the weekday name and the end-of-day estimate appear
/// only when `date` is today; the week line is always relative to today.
pub fn status_view_at(
    date: &Date,
    today: &Date,
    now: i64,
    day: &DayStints,
    acct: &WeekAccounting,
    notes: &Vec<Note>,
    rd: &LocalReadings,
) -> (r: StatusView)
    requires
        status_inputs_ok(*date, *today, now, *day, *acct),
        readings_fit(*rd, *day),
    ensures
        status_view_of(r, *date, *today, *day, *acct, notes@, *rd),
{
    let is_today = *date == *today;
    let day_total_minutes = day.completed_minutes();
    let has_open_stint = day.is_ongoing();
    let week_line_str = week_line(acct, today);
    let anomalies = to_anomalies_at(day, &rd.orphans);
    let anomaly_lines = anomalies.detail_lines();
    let mut daily_target: Option<DailyTargetHint> = None;
    let mut eod: Option<EodState> = None;
    let mut weekday_name: Option<String> = None;
    if is_today {
        let hint = daily_target_hint(acct, today);
        daily_target = Some(hint);
        if has_open_stint {
            if hint.gap_minutes > 0 {
                eod = Some(EodState::At(rd.eod));
            } else {
                eod = Some(EodState::TargetAlreadyMet);
            }
        }
        weekday_name = Some(format_weekday_full(today));
    }
    let stints = build_stint_lines_at(day, &rd.completed_starts, &rd.completed_ends, &rd.open_starts);
    let mut bodies: Vec<String> = Vec::new();
    let mut i: usize = 0;
    while i < notes.len()
        invariant
            i <= notes@.len(),
            bodies@.len() == i,
            forall|k: int| 0 <= k < i ==> (#[trigger] bodies@[k])@ == notes@[k].body@,
        decreases notes@.len() - i,
    {
        bodies.push(notes[i].body.clone());
        i = i + 1;
    }
    StatusView {
        header: format_date_with_weekday(date),
        day_total_minutes,
        has_open_stint,
        daily_target,
        weekday_name,
        eod,
        week_line: week_line_str,
        anomaly_lines,
        stints,
        notes: bodies,
    }
}

/// The view of `date` as seen at `now`, its instants read in the machine's
/// local time (see `status_view_at`): the end-of-day estimate reads
/// `eod_instant(now, gap)`.
pub fn status_view(
    date: &Date,
    today: &Date,
    now: i64,
    day: &DayStints,
    acct: &WeekAccounting,
    notes: &Vec<Note>,
) -> (r: StatusView)
    requires
        status_inputs_ok(*date, *today, now, *day, *acct),
    ensures
        exists|rd: LocalReadings|
            readings_fit(rd, *day) && #[trigger] status_view_of(r, *date, *today, *day, *acct, notes@, rd),
{
    let (completed_starts, completed_ends, open_starts) = read_stint_times(day);
    let orphans = read_orphan_times(&day.orphaned_ends);
    let mut eod = Time::from_hm_opt(0, 0).unwrap();
    if *date == *today && day.open.len() > 0 {
        let hint = daily_target_hint(acct, today);
        if hint.gap_minutes > 0 {
            let at = eod_instant(now, hint.gap_minutes);
            eod = local_time_of(at);
        }
    }
    eod.valid();
    let rd = LocalReadings { completed_starts, completed_ends, open_starts, orphans, eod };
    status_view_at(date, today, now, day, acct, notes, &rd)
}

// ---------------------------------------------------------------------------
// The ledger behind the week line
// ---------------------------------------------------------------------------

/// The ISO week of a date, as `(ISO year, week)`.
pub open spec fn date_week(d: Date) -> (int, int) {
    (iso_year_of(d.num(), d.y()), iso_week_of(d.num(), d.y()))
}

/// The first week the ledger covers: the earliest data week, unless
/// `through` is earlier (or there is no data at all).
pub fn ledger_first_week(earliest: Option<Date>, through: &WeekId) -> (r: WeekId)
    ensures
        r.yw() == match earliest {
            Some(d) => if yw_lt(date_week(d), through.yw()) {
                date_week(d)
            } else {
                through.yw()
            },
            None => through.yw(),
        },
{
    match earliest {
        Some(d) => {
            let e = WeekId::from_date(&d);
            if e.before(through) {
                e
            } else {
                *through
            }
        },
        None => *through,
    }
}

/// One date's stored data, as the ledger needs it: whether it holds any
/// note, its punches, and the punches of the dates on either side (for
/// the midnight splice).
#[derive(Debug, Clone)]
pub struct DayData {
    pub date: Date,
    pub has_notes: bool,
    pub prev: Vec<Punch>,
    pub punches: Vec<Punch>,
    pub next: Vec<Punch>,
}

/// Completed minutes of a date, its neighbours taken into account.
pub open spec fn day_worked(x: DayData, now: i64) -> int {
    total_minutes(classified_at(x.prev@, x.punches@, x.next@, now).0)
}

/// Worked minutes the dates contribute to week `w`: the sum over dates of
/// `w` that hold punches.
pub open spec fn worked_in(days: Seq<DayData>, w: (int, int), now: i64) -> int
    decreases days.len(),
{
    if days.len() == 0 {
        0
    } else {
        let x = days.last();
        worked_in(days.drop_last(), w, now) + (if x.punches@.len() > 0 && date_week(x.date) == w {
            day_worked(x, now)
        } else {
            0
        })
    }
}

/// Weeks of the dates that hold punches.
pub open spec fn worked_weeks(days: Seq<DayData>) -> Set<(int, int)>
    decreases days.len(),
{
    if days.len() == 0 {
        Set::empty()
    } else if days.last().punches@.len() > 0 {
        worked_weeks(days.drop_last()).insert(date_week(days.last().date))
    } else {
        worked_weeks(days.drop_last())
    }
}

/// Weeks of the dates that hold punches or notes.
pub open spec fn data_weeks(days: Seq<DayData>) -> Set<(int, int)>
    decreases days.len(),
{
    if days.len() == 0 {
        Set::empty()
    } else if days.last().punches@.len() > 0 || days.last().has_notes {
        data_weeks(days.drop_last()).insert(date_week(days.last().date))
    } else {
        data_weeks(days.drop_last())
    }
}

/// What `build_ledger` needs: valid instants, and every day total and
/// every running per-week sum fits an `i64`.
pub open spec fn ledger_inputs_ok(days: Seq<DayData>, now: i64) -> bool {
    &&& valid_instant(now as int)
    &&& forall|i: int|
        0 <= i < days.len() ==> {
            &&& all_valid((#[trigger] days[i]).prev@)
            &&& all_valid(days[i].punches@)
            &&& all_valid(days[i].next@)
            &&& sum_fits(classified_at(days[i].prev@, days[i].punches@, days[i].next@, now).0)
        }
    &&& forall|k: int, w: (int, int)|
        0 <= k <= days.len() ==> i64::MIN <= #[trigger] worked_in(days.take(k), w, now)
            <= i64::MAX
}

proof fn lemma_not_worked(days: Seq<DayData>, w: (int, int), now: i64)
    requires
        !worked_weeks(days).contains(w),
    ensures
        worked_in(days, w, now) == 0,
    decreases days.len(),
{
    if days.len() > 0 {
        lemma_not_worked(days.drop_last(), w, now);
    }
}

/// The ledger for the given dates and target overrides: the set of weeks
/// with any punch or note, each week's completed minutes summed over its
/// dates (a date's stints computed with its neighbours, so a stint across
/// midnight counts once, for its start date), and the overrides (a later
/// entry for a week wins). `now` only feeds open stints' live minutes,
/// which never enter a total.
pub fn build_ledger(days: &Vec<DayData>, targets: &Vec<(WeekId, i64)>, now: i64) -> (r: WeekLedger)
    requires
        ledger_inputs_ok(days@, now),
    ensures
        r.targets_map() == entries_map(targets@),
        r.data_set() == data_weeks(days@),
        forall|w: (int, int)| r.worked_map().contains_key(w) <==> worked_weeks(days@).contains(w),
        forall|w: (int, int)| #[trigger] r.data_worked(w) == worked_in(days@, w, now),
{
    let mut ledger = WeekLedger::new();
    let mut i: usize = 0;
    while i < days.len()
        invariant
            i <= days@.len(),
            ledger_inputs_ok(days@, now),
            forall|w: (int, int)|
                ledger.worked_map().contains_key(w) <==> worked_weeks(days@.take(i as int)).contains(w),
            forall|w: (int, int)|
                #[trigger] ledger.worked_map().contains_key(w) ==> ledger.worked_map()[w]
                    == worked_in(days@.take(i as int), w, now),
            ledger.data_set() == data_weeks(days@.take(i as int)),
            ledger.targets_map() == Map::<(int, int), int>::empty(),
        decreases days@.len() - i,
    {
        let x = &days[i];
        let ghost before = days@.take(i as int);
        proof {
            assert(days@.take(i + 1).drop_last() =~= before);
            assert(days@.take(i + 1).last() == *x);
        }
        if x.punches.len() > 0 || x.has_notes {
            let week = WeekId::from_date(&x.date);
            ledger = ledger.with_data_week(week);
            if x.punches.len() > 0 {
                assert(days@[i as int] == *x);
                let c = classify_at(x.prev.as_slice(), x.punches.as_slice(), x.next.as_slice(), now);
                let m = c.completed_minutes();
                let current = ledger.worked_minutes(week);
                proof {
                    if !ledger.worked_map().contains_key(week.yw()) {
                        lemma_not_worked(before, week.yw(), now);
                    }
                    assert(worked_in(days@.take(i + 1), week.yw(), now) == worked_in(before, week.yw(), now) + m);
                    assert(i64::MIN <= #[trigger] worked_in(days@.take(i + 1), week.yw(), now) <= i64::MAX);
                }
                ledger = ledger.with_worked(week, current + m);
                proof {
                    assert forall|w: (int, int)| #[trigger] ledger.worked_map().contains_key(w) implies ledger.worked_map()[w] == worked_in(days@.take(i + 1), w, now) by {
                        if w != week.yw() {
                            assert(worked_in(days@.take(i + 1), w, now) == worked_in(before, w, now));
                        }
                    };
                }
            }
        }
        proof {
            assert forall|w: (int, int)| #[trigger] ledger.worked_map().contains_key(w) implies ledger.worked_map()[w] == worked_in(days@.take(i + 1), w, now) by {
                if !(x.punches@.len() > 0 && date_week(x.date) == w) {
                    assert(worked_in(days@.take(i + 1), w, now) == worked_in(before, w, now));
                }
            };
            assert(ledger.data_set() =~= data_weeks(days@.take(i + 1)));
        }
        i = i + 1;
    }
    proof {
        assert(days@.take(days@.len() as int) =~= days@);
    }
    let mut k: usize = 0;
    while k < targets.len()
        invariant
            k <= targets@.len(),
            ledger.data_set() == data_weeks(days@),
            forall|w: (int, int)| ledger.worked_map().contains_key(w) <==> worked_weeks(days@).contains(w),
            forall|w: (int, int)|
                #[trigger] ledger.worked_map().contains_key(w) ==> ledger.worked_map()[w]
                    == worked_in(days@, w, now),
            ledger.targets_map() == entries_map(targets@.take(k as int)),
        decreases targets@.len() - k,
    {
        let (w, m) = targets[k];
        proof {
            assert(targets@.take(k + 1).drop_last() =~= targets@.take(k as int));
        }
        ledger = ledger.with_target(w, m);
        k = k + 1;
    }
    proof {
        assert(targets@.take(targets@.len() as int) =~= targets@);
        assert forall|w: (int, int)| #[trigger] ledger.data_worked(w) == worked_in(days@, w, now) by {
            if !ledger.worked_map().contains_key(w) {
                lemma_not_worked(days@, w, now);
            }
        };
    }
    ledger
}

// ---------------------------------------------------------------------------
// Laws
// ---------------------------------------------------------------------------

/// Three newlines in a row at `i`: a doubled blank line.
pub open spec fn blank_run_at(t: Seq<char>, i: int) -> bool {
    t[i] == '\n' && t[i + 1] == '\n' && t[i + 2] == '\n'
}

/// A text with no doubled blank line.
pub open spec fn no_blank_run(t: Seq<char>) -> bool {
    forall|i: int| 0 <= i < t.len() - 2 ==> !#[trigger] blank_run_at(t, i)
}

/// Line `i` holds no newline, and is not an empty line followed by
/// another empty line.
pub open spec fn line_fits(lines: Seq<Seq<char>>, i: int) -> bool {
    &&& one_line(lines[i])
    &&& (lines[i].len() == 0 && i + 1 < lines.len() ==> lines[i + 1].len() > 0)
}

/// Single lines, and never two empty lines in a row.
pub open spec fn no_empty_pair(lines: Seq<Seq<char>>) -> bool {
    forall|i: int| 0 <= i < lines.len() ==> #[trigger] line_fits(lines, i)
}

/// Lines with no empty pair, whose last line (if any) is not empty.
pub open spec fn clean_lines(lines: Seq<Seq<char>>) -> bool {
    &&& no_empty_pair(lines)
    &&& (lines.len() > 0 ==> lines.last().len() > 0)
}

proof fn lemma_lines_text_clean(lines: Seq<Seq<char>>)
    requires
        no_empty_pair(lines),
    ensures
        no_blank_run(lines_text(lines)),
        lines.len() > 0 ==> lines_text(lines).len() > 0 && lines_text(lines).last() == '\n',
        lines.len() > 0 && lines.last().len() > 0 ==> lines_text(lines).len() >= 2
            && lines_text(lines)[lines_text(lines).len() - 2] != '\n',
    decreases lines.len(),
{
    if lines.len() > 0 {
        let d = lines.drop_last();
        let x = lines.last();
        assert forall|i: int| 0 <= i < d.len() implies #[trigger] line_fits(d, i) by {
            assert(line_fits(lines, i));
            assert(d[i] == lines[i]);
            if i + 1 < d.len() {
                assert(d[i + 1] == lines[i + 1]);
            }
        };
        lemma_lines_text_clean(d);
        let t = lines_text(d);
        let u = lines_text(lines);
        assert(u == t + x + seq!['\n']);
        assert(line_fits(lines, lines.len() - 1));
        if d.len() > 0 && x.len() == 0 {
            assert(line_fits(lines, d.len() - 1));
            assert(d.last() == lines[d.len() - 1]);
        }
        assert forall|i: int| 0 <= i < u.len() - 2 implies !#[trigger] blank_run_at(u, i) by {
            if i + 2 < t.len() {
                assert(u[i] == t[i] && u[i + 1] == t[i + 1] && u[i + 2] == t[i + 2]);
                assert(!blank_run_at(t, i));
            } else if x.len() > 0 {
                if i + 2 < t.len() + x.len() {
                    assert(u[i + 2] == x[i + 2 - t.len()]);
                } else {
                    assert(u[i + 1] == x[i + 1 - t.len()]);
                }
            } else {
                assert(u[i] == t[t.len() - 2]);
                assert(u[i + 1] == t[t.len() - 1]);
            }
        };
        if x.len() > 0 {
            assert(u[u.len() - 2] == x[x.len() - 1]);
        }
    }
}

proof fn lemma_clean_add(a: Seq<Seq<char>>, b: Seq<Seq<char>>)
    requires
        clean_lines(a),
        clean_lines(b),
    ensures
        clean_lines(a + b),
{
    let c = a + b;
    assert forall|i: int| 0 <= i < c.len() implies #[trigger] line_fits(c, i) by {
        if i < a.len() {
            assert(line_fits(a, i));
            assert(c[i] == a[i]);
            if i + 1 < a.len() {
                assert(c[i + 1] == a[i + 1]);
            }
        } else {
            assert(line_fits(b, i - a.len()));
            assert(c[i] == b[i - a.len()]);
            if i + 1 < c.len() {
                assert(c[i + 1] == b[i + 1 - a.len()]);
            }
        }
    };
    if b.len() == 0 {
        assert(c =~= a);
    } else {
        assert(c.last() == b.last());
    }
}

/// A section: one blank line, then non-empty single lines.
proof fn lemma_blank_led_clean(body: Seq<Seq<char>>)
    requires
        body.len() > 0,
        forall|k: int| 0 <= k < body.len() ==> one_line(#[trigger] body[k]) && body[k].len() > 0,
    ensures
        clean_lines(seq![Seq::<char>::empty()] + body),
{
    let c = seq![Seq::<char>::empty()] + body;
    assert(one_line(Seq::<char>::empty()));
    assert forall|i: int| 0 <= i < c.len() implies #[trigger] line_fits(c, i) by {
        if i > 0 {
            assert(c[i] == body[i - 1]);
        } else {
            assert(c[1] == body[0]);
        }
    };
    assert(c.last() == body[body.len() - 1]);
}

proof fn lemma_stint_line_clean(l: StintLine)
    ensures
        one_line(stint_line_text(l)),
        stint_line_text(l).len() > 0,
{
    reveal(stint_line_text);
    reveal_strlit("-now");
    reveal_strlit("  ");
    reveal_strlit("  (");
    reveal_strlit(", ongoing");
    reveal_strlit(")");
    lemma_hm_one_line(l.start.hm().0, l.start.hm().1);
    let tail: Seq<char> = match l.end {
        StintEnd::At(e) => seq!['-'] + hm_text(e.hm().0, e.hm().1),
        StintEnd::Now => "-now"@,
    };
    match l.end {
        StintEnd::At(e) => {
            lemma_hm_one_line(e.hm().0, e.hm().1);
            assert(one_line(seq!['-']));
            lemma_one_line_add(seq!['-'], hm_text(e.hm().0, e.hm().1));
        },
        StintEnd::Now => {
            assert(one_line("-now"@));
        },
    }
    lemma_one_line_add(hm_text(l.start.hm().0, l.start.hm().1), tail);
    assert(range_text(l) == hm_text(l.start.hm().0, l.start.hm().1) + tail);
    lemma_pad_right_one_line(range_text(l), 11);
    let ongoing: Seq<char> = if l.end is Now {
        ", ongoing"@
    } else {
        Seq::empty()
    };
    assert(one_line("  "@));
    assert(one_line("  ("@));
    assert(one_line(ongoing));
    assert(one_line(")"@));
    lemma_minutes_one_line(l.duration_minutes as int);
    lemma_one_line_add("  "@, pad_right(range_text(l), 11));
    lemma_one_line_add("  "@ + pad_right(range_text(l), 11), "  ("@);
    lemma_one_line_add("  "@ + pad_right(range_text(l), 11) + "  ("@, minutes_text(l.duration_minutes as int));
    lemma_one_line_add(
        "  "@ + pad_right(range_text(l), 11) + "  ("@ + minutes_text(l.duration_minutes as int),
        ongoing,
    );
    lemma_one_line_add(
        "  "@ + pad_right(range_text(l), 11) + "  ("@ + minutes_text(l.duration_minutes as int) + ongoing,
        ")"@,
    );
}

proof fn lemma_day_total_clean(v: StatusView)
    requires
        v.weekday_name matches Some(n) ==> one_line(n@),
    ensures
        one_line(day_total_text(v)),
        day_total_text(v).len() > 0,
{
    reveal_strlit("Day total:");
    reveal_strlit(" (+ ongoing)");
    reveal_strlit(", ");
    reveal_strlit(" left to ");
    reveal_strlit(" over ");
    reveal_strlit(" required by end of ");
    reveal_strlit(", est. EOD ");
    reveal_strlit(", target already met");
    assert(one_line("Day total:"@));
    lemma_pad_right_one_line("Day total:"@, STATUS_LABEL_WIDTH as int);
    lemma_minutes_one_line(v.day_total_minutes as int);
    let ongoing: Seq<char> = if v.has_open_stint {
        " (+ ongoing)"@
    } else {
        Seq::empty()
    };
    assert(one_line(ongoing));
    match v.daily_target {
        Some(h) => {
            let mag: int = if h.gap_minutes >= 0 {
                h.gap_minutes as int
            } else {
                -h.gap_minutes
            };
            let word: Seq<char> = if h.gap_minutes >= 0 {
                " left to "@
            } else {
                " over "@
            };
            let name: Seq<char> = match v.weekday_name {
                Some(n) => n@,
                None => Seq::empty(),
            };
            assert(one_line(", "@));
            assert(one_line(word));
            assert(one_line(" required by end of "@));
            assert(one_line(name));
            lemma_minutes_one_line(mag);
            lemma_minutes_one_line(h.required_minutes as int);
            lemma_one_line_add(", "@, minutes_text(mag));
            lemma_one_line_add(", "@ + minutes_text(mag), word);
            lemma_one_line_add(", "@ + minutes_text(mag) + word, minutes_text(h.required_minutes as int));
            lemma_one_line_add(
                ", "@ + minutes_text(mag) + word + minutes_text(h.required_minutes as int),
                " required by end of "@,
            );
            lemma_one_line_add(
                ", "@ + minutes_text(mag) + word + minutes_text(h.required_minutes as int)
                    + " required by end of "@,
                name,
            );
        },
        None => {},
    }
    assert(one_line(hint_text(v)));
    match v.eod {
        Some(EodState::At(t)) => {
            assert(one_line(", est. EOD "@));
            lemma_hm_one_line(t.hm().0, t.hm().1);
            lemma_one_line_add(", est. EOD "@, hm_text(t.hm().0, t.hm().1));
        },
        Some(EodState::TargetAlreadyMet) => {
            assert(one_line(", target already met"@));
        },
        None => {},
    }
    assert(one_line(eod_text(v.eod)));
    let label = pad_right("Day total:"@, STATUS_LABEL_WIDTH as int);
    lemma_one_line_add(label, minutes_text(v.day_total_minutes as int));
    lemma_one_line_add(label + minutes_text(v.day_total_minutes as int), ongoing);
    lemma_one_line_add(label + minutes_text(v.day_total_minutes as int) + ongoing, hint_text(v));
    lemma_one_line_add(
        label + minutes_text(v.day_total_minutes as int) + ongoing + hint_text(v),
        eod_text(v.eod),
    );
}

/// The status text never holds a doubled blank line, and ends in exactly
/// one newline with no blank line before it: sections are omitted when
/// empty, each present one is led by a single blank line (given a
/// non-empty single-line header, week line and anomaly lines, and
/// single-line note bodies and weekday name).
pub proof fn law_status_text_has_no_doubled_blank_line(v: StatusView)
    requires
        one_line(v.header@),
        v.header@.len() > 0,
        one_line(v.week_line@),
        v.week_line@.len() > 0,
        v.weekday_name matches Some(n) ==> one_line(n@),
        forall|k: int|
            0 <= k < v.anomaly_lines@.len() ==> one_line((#[trigger] v.anomaly_lines@[k])@)
                && v.anomaly_lines@[k]@.len() > 0,
        forall|k: int| 0 <= k < v.notes@.len() ==> one_line((#[trigger] v.notes@[k])@),
    ensures
        ({
            let t = lines_text(status_lines(v));
            &&& no_blank_run(t)
            &&& t.len() >= 2
            &&& t.last() == '\n'
            &&& t[t.len() - 2] != '\n'
        }),
{
    lemma_day_total_clean(v);
    let head = seq![v.header@, Seq::empty(), day_total_text(v), v.week_line@];
    assert(one_line(Seq::<char>::empty()));
    assert forall|i: int| 0 <= i < head.len() implies #[trigger] line_fits(head, i) by {};
    assert(clean_lines(head));
    let an = anomaly_section(v);
    if v.anomaly_lines@.len() > 0 {
        let body = Seq::new(v.anomaly_lines@.len(), |i: int| v.anomaly_lines@[i]@);
        assert forall|k: int| 0 <= k < body.len() implies one_line(#[trigger] body[k]) && body[k].len() > 0 by {
            assert(one_line(v.anomaly_lines@[k]@));
        };
        lemma_blank_led_clean(body);
    } else {
        assert(clean_lines(an));
    }
    let st = stint_section(v);
    if v.stints@.len() > 0 {
        let body = Seq::new(v.stints@.len(), |i: int| stint_line_text(v.stints@[i]));
        assert forall|k: int| 0 <= k < body.len() implies one_line(#[trigger] body[k]) && body[k].len() > 0 by {
            lemma_stint_line_clean(v.stints@[k]);
        };
        lemma_blank_led_clean(body);
    } else {
        assert(clean_lines(st));
    }
    let no = notes_section(v);
    if v.notes@.len() > 0 {
        reveal_strlit("Notes:");
        reveal_strlit("  - ");
        let items = Seq::new(v.notes@.len(), |i: int| "  - "@ + v.notes@[i]@);
        let body = seq!["Notes:"@] + items;
        assert(one_line("  - "@));
        assert forall|k: int| 0 <= k < body.len() implies one_line(#[trigger] body[k]) && body[k].len() > 0 by {
            if k == 0 {
                assert(one_line("Notes:"@));
            } else {
                assert(body[k] == items[k - 1]);
                assert(one_line(v.notes@[k - 1]@));
                lemma_one_line_add("  - "@, v.notes@[k - 1]@);
            }
        };
        lemma_blank_led_clean(body);
        assert(no == seq![Seq::<char>::empty()] + body);
    } else {
        assert(clean_lines(no));
    }
    lemma_clean_add(head, an);
    lemma_clean_add(head + an, st);
    lemma_clean_add(head + an + st, no);
    assert(status_lines(v) == head + an + st + no);
    lemma_lines_text_clean(status_lines(v));
}

/// Lines joined by single newlines (no newline after the last one).
pub open spec fn join_lines(lines: Seq<Seq<char>>) -> Seq<char>
    decreases lines.len(),
{
    if lines.len() == 0 {
        Seq::empty()
    } else if lines.len() == 1 {
        lines[0]
    } else {
        join_lines(lines.drop_last()) + seq!['\n'] + lines.last()
    }
}

/// One newline after every line is the lines joined by newlines, plus a
/// final newline.
pub proof fn lemma_lines_text_is_joined(lines: Seq<Seq<char>>)
    requires
        lines.len() > 0,
    ensures
        lines_text(lines) == join_lines(lines) + seq!['\n'],
    decreases lines.len(),
{
    let d = lines.drop_last();
    if d.len() == 0 {
        assert(lines_text(d) =~= Seq::<char>::empty());
        assert(lines_text(lines) =~= lines[0] + seq!['\n']);
    } else {
        lemma_lines_text_is_joined(d);
        assert(lines_text(lines) =~= join_lines(d) + seq!['\n'] + lines.last() + seq!['\n']);
    }
}

/// The status text is its lines (header, blank, day total, week line,
/// then each present section led by one blank line) joined by newlines,
/// with exactly one final newline.
pub proof fn law_status_text_is_its_lines_joined(v: StatusView)
    ensures
        lines_text(status_lines(v)) == join_lines(status_lines(v)) + seq!['\n'],
        status_lines(v).len() >= 4,
        status_lines(v)[0] == v.header@,
        status_lines(v)[1] == Seq::<char>::empty(),
        status_lines(v)[2] == day_total_text(v),
        status_lines(v)[3] == v.week_line@,
{
    lemma_lines_text_is_joined(status_lines(v));
}

} // verus!
