//! The decisions behind `start`, `stop`, `note` and the delete listings:
//! which date and time a punch is recorded at, how a note's tokens join,
//! how an entry id is checked, and the lines echoed back to the user.

use crate::calendar::{hm_text, local_time_of, push_time, ymd_text, Date, Time};
use crate::date::{format_date, resolve_future_checked_date, DateWeekError};
use crate::cli::PunchArgs;
use crate::storage::{checked_note_body, trimmed, valid_instant, Note, Punch, PunchKind, StorageError};
use crate::text::{decimal, first_index, find_char, push_char, push_decimal, push_str};
use crate::time::{parse_time, time_fields, TimeParseError};
use vstd::prelude::*;

verus! {

// ---------------------------------------------------------------------------
// Shell quoting
// ---------------------------------------------------------------------------

/// `s` with every `'` written as `'"'"'`.
pub open spec fn escape_quotes(s: Seq<char>) -> Seq<char>
    decreases s.len(),
{
    if s.len() == 0 {
        Seq::empty()
    } else {
        escape_quotes(s.drop_last()) + (if s.last() == '\'' {
            seq!['\'', '"', '\'', '"', '\'']
        } else {
            seq![s.last()]
        })
    }
}

/// `s` as one single-quoted POSIX/fish shell token.
pub open spec fn shell_quoted(s: Seq<char>) -> Seq<char> {
    seq!['\''] + escape_quotes(s) + seq!['\'']
}

/// Wraps `body` as one single-quoted shell token: every embedded `'` is
/// written as `'"'"'` (close, a double-quoted `'`, reopen). Always starts
/// and ends with `'`, even for an empty body.
pub fn quote_shell_single(body: &str) -> (r: String)
    ensures
        r@ == shell_quoted(body@),
{
    let mut out = String::new();
    push_char(&mut out, '\'');
    let n = body.unicode_len();
    let mut i: usize = 0;
    while i < n
        invariant
            n == body@.len(),
            i <= n,
            out@ == seq!['\''] + escape_quotes(body@.take(i as int)),
        decreases n - i,
    {
        let ch = body.get_char(i);
        proof {
            assert(body@.take(i + 1).drop_last() =~= body@.take(i as int));
            assert(body@.take(i + 1).last() == ch);
        }
        if ch == '\'' {
            push_char(&mut out, '\'');
            push_char(&mut out, '"');
            push_char(&mut out, '\'');
            push_char(&mut out, '"');
            push_char(&mut out, '\'');
        } else {
            push_char(&mut out, ch);
        }
        i = i + 1;
    }
    push_char(&mut out, '\'');
    assert(body@.take(n as int) =~= body@);
    assert(out@ =~= shell_quoted(body@));
    out
}

// ---------------------------------------------------------------------------
// Entry ids
// ---------------------------------------------------------------------------

/// Why an entry id was refused.
#[derive(Debug, Clone, Copy, PartialEq, Eq, Structural)]
pub enum EntryIdError {
    /// Ids are 1-based; `0` never names an entry.
    Zero { count: usize },
    /// The id is past the date's last entry.
    OutOfRange { id: u32, count: usize },
}

/// `entry` for one, `entries` otherwise.
pub open spec fn entry_word(count: int) -> Seq<char> {
    if count == 1 {
        "entry"@
    } else {
        "entries"@
    }
}

/// The message an entry-id error prints.
pub open spec fn entry_id_error_text(e: EntryIdError) -> Seq<char> {
    match e {
        EntryIdError::Zero { count } => "id must be 1 or greater (got 0); "@ + decimal(
            count as nat,
        ) + seq![' '] + entry_word(count as int) + " for this date"@,
        EntryIdError::OutOfRange { id, count } => "id "@ + decimal(id as nat)
            + " is out of range; only "@ + decimal(count as nat) + seq![' '] + entry_word(
            count as int,
        ) + " for this date"@,
    }
}

impl EntryIdError {
    /// The one-line message, e.g. `id 5 is out of range; only 1 entry for
    /// this date`.
    pub fn message(&self) -> (r: String)
        ensures
            r@ == entry_id_error_text(*self),
    {
        let mut s = String::new();
        let count = match self {
            EntryIdError::Zero { count } => {
                push_str(&mut s, "id must be 1 or greater (got 0); ");
                *count
            },
            EntryIdError::OutOfRange { id, count } => {
                push_str(&mut s, "id ");
                push_decimal(&mut s, *id as u64);
                push_str(&mut s, " is out of range; only ");
                *count
            },
        };
        push_decimal(&mut s, count as u64);
        push_char(&mut s, ' ');
        if count == 1 {
            push_str(&mut s, "entry");
        } else {
            push_str(&mut s, "entries");
        }
        push_str(&mut s, " for this date");
        assert(s@ =~= entry_id_error_text(*self));
        s
    }
}

/// Checks a 1-based `id` against the `count` entries of a date and gives
/// the zero-based index it names.
pub fn validate_entry_id(id: u32, count: usize) -> (r: Result<usize, EntryIdError>)
    ensures
        id == 0 ==> r == Err::<usize, EntryIdError>(EntryIdError::Zero { count }),
        id > count ==> id > 0 ==> r == Err::<usize, EntryIdError>(
            EntryIdError::OutOfRange { id, count },
        ),
        1 <= id <= count ==> r == Ok::<usize, EntryIdError>((id - 1) as usize),
{
    if id == 0 {
        return Err(EntryIdError::Zero { count });
    }
    let index = (id - 1) as usize;
    if index >= count {
        return Err(EntryIdError::OutOfRange { id, count });
    }
    Ok(index)
}

// ---------------------------------------------------------------------------
// Recreate lines and listings
// ---------------------------------------------------------------------------

/// ` --date YYYY-MM-DD` when `date` is not today, else nothing.
pub open spec fn date_flag_text(date: Date, today: Date) -> Seq<char> {
    if date != today {
        " --date "@ + ymd_text(date.y(), date.m(), date.d())
    } else {
        Seq::empty()
    }
}

/// The CLI verb that records a punch of this kind (`stop`, never `end`).
pub open spec fn punch_verb(k: PunchKind) -> Seq<char> {
    match k {
        PunchKind::Start => "start"@,
        PunchKind::End => "stop"@,
    }
}

/// `mlm start|stop HH:MM[ --date YYYY-MM-DD]`.
pub open spec fn punch_recreate_text(kind: PunchKind, time: Time, date: Date, today: Date) -> Seq<
    char,
> {
    "mlm "@ + punch_verb(kind) + seq![' '] + hm_text(time.hm().0, time.hm().1) + date_flag_text(
        date,
        today,
    )
}

fn push_date_flag(s: &mut String, date: &Date, today: &Date)
    ensures
        final(s)@ == old(s)@ + date_flag_text(*date, *today),
{
    if *date != *today {
        push_str(s, " --date ");
        let d = format_date(date);
        push_str(s, d.as_str());
    }
}

/// The command that recreates a deleted punch, given the punch's local
/// wall-clock time.
pub fn punch_recreate_line_at(p: &Punch, local_time: &Time, today: &Date) -> (r: String)
    ensures
        r@ == punch_recreate_text(p.kind, *local_time, p.date, *today),
{
    let mut line = String::new();
    push_str(&mut line, "mlm ");
    match p.kind {
        PunchKind::Start => push_str(&mut line, "start"),
        PunchKind::End => push_str(&mut line, "stop"),
    }
    push_char(&mut line, ' ');
    push_time(&mut line, local_time);
    push_date_flag(&mut line, &p.date, today);
    assert(line@ =~= punch_recreate_text(p.kind, *local_time, p.date, *today));
    line
}

/// The command that recreates a deleted punch: its own instant converted
/// to local time (never `now`'s offset), and `--date` only when the punch
/// is not today's.
pub fn punch_recreate_line(p: &Punch, today: &Date) -> (r: String)
    requires
        valid_instant(p.at_utc as int),
    ensures
        exists|t: Time|
            t.hm().0 < 24 && t.hm().1 < 60 && r@ == #[trigger] punch_recreate_text(
                p.kind,
                t,
                p.date,
                *today,
            ),
{
    let t = local_time_of(p.at_utc);
    t.valid();
    punch_recreate_line_at(p, &t, today)
}

/// `s` without one trailing `\r`.
pub open spec fn strip_cr(s: Seq<char>) -> Seq<char> {
    if s.len() > 0 && s.last() == '\r' {
        s.drop_last()
    } else {
        s
    }
}

/// What `str::lines().next().unwrap_or("")` gives: the text up to the
/// first `\n` (without a `\r` just before it), or the whole text.
pub open spec fn first_line(s: Seq<char>) -> Seq<char> {
    match first_index(s, '\n') {
        Some(i) => strip_cr(s.take(i)),
        None => s,
    }
}

/// The first line of `s`.
fn first_line_of(s: &str) -> (r: &str)
    ensures
        r@ == first_line(s@),
{
    match find_char(s, '\n') {
        Some(i) => {
            if i > 0 && s.get_char(i - 1) == '\r' {
                s.substring_char(0, i - 1)
            } else {
                s.substring_char(0, i)
            }
        },
        None => s,
    }
}

/// The echo for a deleted note: `mlm note[ --date YYYY-MM-DD] '<body>'`
/// (the date flag before the body), or, for a body holding a backslash
/// (which no single quoting replays alike in every shell), the plain
/// `deleted note (YYYY-MM-DD): <first line>...`.
pub open spec fn note_recreate_text(n: Note, today: Date) -> Seq<char> {
    if n.body@.contains('\\') {
        "deleted note ("@ + ymd_text(n.date.y(), n.date.m(), n.date.d()) + "): "@ + first_line(
            n.body@,
        ) + "..."@
    } else {
        "mlm note"@ + date_flag_text(n.date, today) + seq![' '] + shell_quoted(n.body@)
    }
}

/// The command that recreates a deleted note (see `note_recreate_text`).
pub fn note_recreate_line(n: &Note, today: &Date) -> (r: String)
    ensures
        r@ == note_recreate_text(*n, *today),
{
    let body = n.body.as_str();
    match find_char(body, '\\') {
        Some(i) => {
            proof {
                assert(body@[i as int] == '\\');
            }
            let mut line = String::new();
            push_str(&mut line, "deleted note (");
            let d = format_date(&n.date);
            push_str(&mut line, d.as_str());
            push_str(&mut line, "): ");
            push_str(&mut line, first_line_of(body));
            push_str(&mut line, "...");
            assert(line@ =~= note_recreate_text(*n, *today));
            line
        },
        None => {
            let mut line = String::new();
            push_str(&mut line, "mlm note");
            push_date_flag(&mut line, &n.date, today);
            push_char(&mut line, ' ');
            let q = quote_shell_single(body);
            push_str(&mut line, q.as_str());
            assert(line@ =~= note_recreate_text(*n, *today));
            line
        },
    }
}

/// One listing line of a note: `<n>  <body>`.
pub open spec fn note_list_text(n: int, body: Seq<char>) -> Seq<char> {
    decimal(n as nat) + seq![' ', ' '] + body
}

/// The note listing: one `<n>  <body>` line per note, numbered from 1.
pub fn note_list_lines(rows: &Vec<Note>) -> (r: Vec<String>)
    ensures
        r@.len() == rows@.len(),
        forall|i: int| 0 <= i < rows@.len() ==> (#[trigger] r@[i])@ == note_list_text(i + 1, rows@[i].body@),
{
    let mut out: Vec<String> = Vec::new();
    let mut i: usize = 0;
    while i < rows.len()
        invariant
            i <= rows@.len(),
            out@.len() == i,
            forall|k: int| 0 <= k < i ==> (#[trigger] out@[k])@ == note_list_text(k + 1, rows@[k].body@),
        decreases rows@.len() - i,
    {
        let mut line = String::new();
        push_decimal(&mut line, i as u64 + 1);
        push_str(&mut line, "  ");
        push_str(&mut line, rows[i].body.as_str());
        proof {
            reveal_strlit("  ");
        }
        assert(line@ =~= note_list_text(i + 1, rows@[i as int].body@));
        out.push(line);
        i = i + 1;
    }
    out
}

/// One listing line of a punch: `<n>  <kind> HH:MM`.
pub open spec fn punch_list_text(n: int, kind: PunchKind, time: Time) -> Seq<char> {
    decimal(n as nat) + seq![' ', ' '] + match kind {
        PunchKind::Start => "start"@,
        PunchKind::End => "end"@,
    } + seq![' '] + hm_text(time.hm().0, time.hm().1)
}

/// `lines` list `rows`, the `i`-th at the local time `times[i]`.
pub open spec fn lists_punches(lines: Seq<String>, rows: Seq<Punch>, times: Seq<Time>) -> bool {
    &&& lines.len() == rows.len()
    &&& forall|i: int| 0 <= i < rows.len() ==> (#[trigger] lines[i])@ == punch_list_text(i + 1, rows[i].kind, times[i])
}

/// The punch listing, given the local wall-clock reading of each punch's
/// instant (`times[i]` reads `rows[i]`): one `<n>  <kind> HH:MM` line per
/// punch, numbered from 1.
pub fn punch_list_lines_at(rows: &Vec<Punch>, times: &Vec<Time>) -> (r: Vec<String>)
    requires
        times@.len() == rows@.len(),
    ensures
        lists_punches(r@, rows@, times@),
{
    let mut out: Vec<String> = Vec::new();
    let mut i: usize = 0;
    while i < rows.len()
        invariant
            i <= rows@.len(),
            times@.len() == rows@.len(),
            out@.len() == i,
            forall|k: int| 0 <= k < i ==> (#[trigger] out@[k])@ == punch_list_text(k + 1, rows@[k].kind, times@[k]),
        decreases rows@.len() - i,
    {
        let p = rows[i];
        let t = times[i];
        let mut line = String::new();
        push_decimal(&mut line, i as u64 + 1);
        push_str(&mut line, "  ");
        push_str(&mut line, p.kind.as_str());
        push_char(&mut line, ' ');
        push_time(&mut line, &t);
        proof {
            reveal_strlit("  ");
        }
        assert(line@ =~= punch_list_text(i + 1, p.kind, t));
        out.push(line);
        i = i + 1;
    }
    out
}

/// The punch listing, each punch at its own local time (see
/// `punch_list_lines_at`).
pub fn punch_list_lines(rows: &Vec<Punch>) -> (r: Vec<String>)
    requires
        forall|i: int| 0 <= i < rows@.len() ==> valid_instant((#[trigger] rows@[i]).at_utc as int),
    ensures
        exists|times: Seq<Time>|
            times.len() == rows@.len() && (forall|i: int|
                0 <= i < times.len() ==> (#[trigger] times[i]).hm().0 < 24 && times[i].hm().1 < 60)
                && #[trigger] lists_punches(r@, rows@, times),
{
    let mut times: Vec<Time> = Vec::new();
    let mut i: usize = 0;
    while i < rows.len()
        invariant
            i <= rows@.len(),
            times@.len() == i,
            forall|i: int| 0 <= i < rows@.len() ==> valid_instant((#[trigger] rows@[i]).at_utc as int),
            forall|k: int| 0 <= k < i ==> (#[trigger] times@[k]).hm().0 < 24 && times@[k].hm().1 < 60,
        decreases rows@.len() - i,
    {
        let t = local_time_of(rows[i].at_utc);
        t.valid();
        times.push(t);
        i = i + 1;
    }
    punch_list_lines_at(rows, &times)
}

// ---------------------------------------------------------------------------
// Where a punch or a note goes
// ---------------------------------------------------------------------------

/// What the date of a punch or note comes to: `Ok(d)` when `date` names
/// `d` (today when absent) and `d` is not after today; `Err(e)` when the
/// argument fails to resolve, or names an absolute date after today.
pub open spec fn target_date_outcome(date: Option<String>, today: Date, r: Result<Date, DateWeekError>) -> bool {
    match date {
        None => r == Ok::<Date, DateWeekError>(today),
        Some(s) => match r {
            Ok(d) => crate::date::resolves_to(s@, today, d) && !crate::calendar::date_lt(today, d),
            Err(e) => e.arg == crate::date::ArgKind::Date && e.input@ == s@ && (
            crate::date::resolve_fails(s@, today, e.cause) || (e.cause == crate::date::Cause::Future
                && !crate::date::is_relative(s@) && exists|d: Date|
                crate::date::resolves_to(s@, today, d) && #[trigger] crate::calendar::date_lt(
                today,
                d,
            ))),
        },
    }
}

/// The date a punch or note is recorded against: today when no `--date`
/// is given, otherwise the argument resolved and checked not to be in the
/// future.
pub fn resolve_target_date(date: &Option<String>, today: &Date) -> (r: Result<Date, DateWeekError>)
    ensures
        target_date_outcome(*date, *today, r),
{
    match date {
        Some(s) => resolve_future_checked_date(s.as_str(), today),
        None => Ok(*today),
    }
}

/// What the time of a punch comes to: the given `TIME` parsed (or its
/// parse error); else `now_time` when the date is today; else `Required`.
pub open spec fn punch_time_outcome(
    time: Option<String>,
    target_date: Date,
    today: Date,
    now_time: Time,
    r: Result<Time, TimeParseError>,
) -> bool {
    match time {
        Some(s) => match r {
            Ok(t) => time_fields(s@) == Some(t.hm()),
            Err(e) => match e {
                TimeParseError::InvalidFormat(x) => time_fields(s@) is None && x@ == s@,
                TimeParseError::OutOfRange { input, hour, minute } => time_fields(s@) == Some(
                    (hour as int, minute as int),
                ) && !(hour < 24 && minute < 60) && input@ == s@,
                TimeParseError::Required => false,
            },
        },
        None => if target_date == today {
            r == Ok::<Time, TimeParseError>(now_time)
        } else {
            r == Err::<Time, TimeParseError>(TimeParseError::Required)
        },
    }
}

/// The time of day a punch is recorded at: the given `TIME` parsed; else
/// `now_time` (the current local time) when the date is today; else
/// `TIME` is required.
pub fn punch_time(time: &Option<String>, target_date: &Date, today: &Date, now_time: &Time) -> (r:
    Result<Time, TimeParseError>)
    ensures
        punch_time_outcome(*time, *target_date, *today, *now_time, r),
{
    match time {
        Some(s) => parse_time(s.as_str()),
        None => {
            if *target_date == *today {
                Ok(*now_time)
            } else {
                Err(TimeParseError::Required)
            }
        },
    }
}

/// Why a `start`/`stop` request is refused, in the order its parts are
/// checked.
#[derive(Debug)]
pub enum PunchRequestError {
    /// The `--date` argument.
    Date(DateWeekError),
    /// The `TIME` argument (or its absence on another day).
    Time(TimeParseError),
    /// The note is blank.
    Note(StorageError),
}

impl PunchRequestError {
    /// The one-line message of the part that failed.
    pub fn message(&self) -> (r: String)
        ensures
            (self matches PunchRequestError::Date(e) ==> r@ == crate::date::date_week_error_text(
                e.arg,
                e.input@,
                e.cause,
            )),
            (self matches PunchRequestError::Time(e) ==> r@ == crate::time::time_error_text(*e)),
            (self matches PunchRequestError::Note(e) ==> (!(e is Db) ==> r@
                == crate::storage::storage_error_text(*e, Seq::empty()))),
    {
        match self {
            PunchRequestError::Date(e) => e.message(),
            PunchRequestError::Time(e) => e.message(),
            PunchRequestError::Note(e) => e.message(),
        }
    }
}

/// A `start`/`stop` request checked in order: the date, then the time
/// (which needs the date), then the note, which when given must not be
/// blank. On success: the date, the time and the note's joined text.
pub fn punch_request(args: &PunchArgs, today: &Date, now_time: &Time) -> (r: Result<
    (Date, Time, Option<String>),
    PunchRequestError,
>)
    ensures
        match r {
            Ok((d, t, n)) => target_date_outcome(args.date, *today, Ok(d)) && punch_time_outcome(
                args.time,
                d,
                *today,
                *now_time,
                Ok(t),
            ) && (args.note@.len() == 0 ==> n is None) && (args.note@.len() > 0 ==> (n matches Some(
                x,
            ) && x@ == joined(Seq::new(args.note@.len(), |i: int| args.note@[i]@)) && trimmed(x@).len()
                > 0)),
            Err(PunchRequestError::Date(e)) => target_date_outcome(args.date, *today, Err(e)),
            Err(PunchRequestError::Time(e)) => exists|d: Date|
                target_date_outcome(args.date, *today, Ok(d)) && #[trigger] punch_time_outcome(
                    args.time,
                    d,
                    *today,
                    *now_time,
                    Err(e),
                ),
            Err(PunchRequestError::Note(e)) => e is EmptyNote && args.note@.len() > 0 && trimmed(
                joined(Seq::new(args.note@.len(), |i: int| args.note@[i]@)),
            ).len() == 0 && exists|d: Date, t: Time|
                target_date_outcome(args.date, *today, Ok(d)) && #[trigger] punch_time_outcome(
                    args.time,
                    d,
                    *today,
                    *now_time,
                    Ok(t),
                ),
        },
{
    let date = match resolve_target_date(&args.date, today) {
        Ok(d) => d,
        Err(e) => return Err(PunchRequestError::Date(e)),
    };
    let time = match punch_time(&args.time, &date, today, now_time) {
        Ok(t) => t,
        Err(e) => return Err(PunchRequestError::Time(e)),
    };
    let note = join_note(&args.note);
    match &note {
        Some(text) => {
            match checked_note_body(text.as_str()) {
                Ok(_) => {},
                Err(e) => return Err(PunchRequestError::Note(e)),
            }
        },
        None => {},
    }
    Ok((date, time, note))
}

/// Tokens joined with single spaces.
pub open spec fn joined(parts: Seq<Seq<char>>) -> Seq<char>
    decreases parts.len(),
{
    if parts.len() == 0 {
        Seq::empty()
    } else if parts.len() == 1 {
        parts[0]
    } else {
        joined(parts.drop_last()) + seq![' '] + parts.last()
    }
}

/// A note's tokens joined with single spaces; `None` when there are no
/// tokens at all. An empty or blank token still yields `Some`, so storage
/// gets to reject it.
pub fn join_note(parts: &Vec<String>) -> (r: Option<String>)
    ensures
        parts@.len() == 0 ==> r is None,
        parts@.len() > 0 ==> (r matches Some(s) && s@ == joined(
            Seq::new(parts@.len(), |i: int| parts@[i]@),
        )),
{
    if parts.len() == 0 {
        return None;
    }
    let ghost all = Seq::new(parts@.len(), |i: int| parts@[i]@);
    let mut s = String::new();
    push_str(&mut s, parts[0].as_str());
    proof {
        assert(all.take(1) =~= seq![all[0]]);
    }
    let mut i: usize = 1;
    while i < parts.len()
        invariant
            1 <= i <= parts@.len(),
            all == Seq::new(parts@.len(), |i: int| parts@[i]@),
            s@ == joined(all.take(i as int)),
        decreases parts@.len() - i,
    {
        push_char(&mut s, ' ');
        push_str(&mut s, parts[i].as_str());
        proof {
            assert(all.take(i + 1).drop_last() =~= all.take(i as int));
        }
        i = i + 1;
    }
    assert(all.take(parts@.len() as int) =~= all);
    Some(s)
}

// ---------------------------------------------------------------------------
// Laws
// ---------------------------------------------------------------------------

/// What a shell does inside a single-quoted token built by
/// `quote_shell_single`, read left to right: `'"'"'` stands for one `'`,
/// every other character for itself.
pub open spec fn unescape_quotes(t: Seq<char>) -> Seq<char>
    decreases t.len(),
{
    if t.len() >= 5 && t.take(5) == seq!['\'', '"', '\'', '"', '\''] {
        seq!['\''] + unescape_quotes(t.skip(5))
    } else if t.len() > 0 {
        seq![t[0]] + unescape_quotes(t.skip(1))
    } else {
        Seq::empty()
    }
}

proof fn lemma_escape_append(a: Seq<char>, b: Seq<char>)
    ensures
        escape_quotes(a + b) == escape_quotes(a) + escape_quotes(b),
    decreases b.len(),
{
    if b.len() == 0 {
        assert(a + b =~= a);
    } else {
        assert((a + b).drop_last() =~= a + b.drop_last());
        lemma_escape_append(a, b.drop_last());
    }
}

proof fn lemma_unescape_escape(s: Seq<char>)
    ensures
        unescape_quotes(escape_quotes(s)) == s,
    decreases s.len(),
{
    if s.len() > 0 {
        let c = s[0];
        let rest = s.skip(1);
        assert(s =~= seq![c] + rest);
        lemma_escape_append(seq![c], rest);
        assert(seq![c].drop_last() =~= Seq::<char>::empty());
        assert(escape_quotes(Seq::<char>::empty()) == Seq::<char>::empty());
        let e = escape_quotes(rest);
        lemma_unescape_escape(rest);
        if c == '\'' {
            let q = seq!['\'', '"', '\'', '"', '\''];
            assert(escape_quotes(seq![c]) =~= q);
            let t = q + e;
            assert(t.take(5) =~= q);
            assert(t.skip(5) =~= e);
        } else {
            assert(escape_quotes(seq![c]) =~= seq![c]);
            let t = seq![c] + e;
            assert(t[0] == c);
            assert(t.skip(1) =~= e);
            if t.len() >= 5 {
                assert(t.take(5)[0] == c);
            }
        }
        assert(seq![c] + rest =~= s);
    }
}

/// A quoted note body replays as itself: stripping the outer quotes of
/// `quote_shell_single(s)` and reading `'"'"'` back as `'` gives `s`.
pub proof fn law_shell_quote_round_trip(s: Seq<char>)
    ensures
        shell_quoted(s).len() >= 2,
        shell_quoted(s)[0] == '\'',
        shell_quoted(s).last() == '\'',
        unescape_quotes(shell_quoted(s).subrange(1, shell_quoted(s).len() - 1)) == s,
{
    let q = shell_quoted(s);
    assert(q.subrange(1, q.len() - 1) =~= escape_quotes(s));
    lemma_unescape_escape(s);
}

} // verus!
