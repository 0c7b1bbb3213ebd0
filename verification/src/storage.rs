//! Punch and note values as stored (`punches`/`notes` rows), the kind
//! column's text form, and the checks the write path applies before
//! anything reaches the database. The database I/O itself lives outside
//! the verified library.

use crate::calendar::{
    hm_text, local_date_of, local_instants, naive_instant, parse_ymd_text, push_time, utc_day,
    day_number, valid_ymd, ymd_parse, ymd_text, Date, LocalInstants, Time, MAX_UTC_SAFE, MIN_UTC_SAFE,
};
use crate::date::format_date;
use crate::text::{debug_quote, debug_quoted, push_str, zero_padded};
use vstd::prelude::*;

verus! {

/// `rusqlite::Error`, carried through unchanged.
#[verifier::external_type_specification]
#[verifier::external_body]
pub struct ExRusqliteError(rusqlite::Error);

/// Smallest instant (seconds since the Unix epoch) a `DateTime<Utc>` holds:
/// the first second of chrono's first date.
pub const MIN_INSTANT: i64 = -8334601228800;

/// Largest instant (seconds since the Unix epoch) a `DateTime<Utc>` holds:
/// the last second of chrono's last date.
pub const MAX_INSTANT: i64 = 8210266876799;

/// An instant a `DateTime<Utc>` can represent.
pub open spec fn valid_instant(t: int) -> bool {
    MIN_INSTANT <= t <= MAX_INSTANT
}

/// Which side of a stint a punch is. `Start` orders before `End`, which is
/// what makes a same-instant start/end pair match.
#[derive(Debug, Clone, Copy, PartialEq, Eq, Structural, PartialOrd, Ord, Hash)]
pub enum PunchKind {
    Start,
    End,
}

/// Sort rank of a kind: `Start` before `End`.
pub open spec fn kind_rank(k: PunchKind) -> int {
    match k {
        PunchKind::Start => 0,
        PunchKind::End => 1,
    }
}

impl PunchKind {
    /// The exact text stored in `punches.kind`.
    pub fn as_str(self) -> (r: &'static str)
        ensures
            r@ == (match self {
                PunchKind::Start => "start"@,
                PunchKind::End => "end"@,
            }),
    {
        match self {
            PunchKind::Start => "start",
            PunchKind::End => "end",
        }
    }

    /// Inverse of `as_str`; unknown text is a data-integrity error.
    pub fn from_str(s: &str) -> (r: Result<PunchKind, StorageError>)
        ensures
            s@ == "start"@ ==> r == Ok::<PunchKind, StorageError>(PunchKind::Start),
            s@ == "end"@ ==> r == Ok::<PunchKind, StorageError>(PunchKind::End),
            s@ != "start"@ && s@ != "end"@ ==> (r matches Err(StorageError::CorruptRow { column, value })
                && column@ == "kind"@ && value@ == s@),
    {
        let start = "start";
        let end = "end";
        proof {
            reveal_strlit("start");
            reveal_strlit("end");
            assert(start@.len() == 5 && end@.len() == 3);
        }
        if str_eq(s, start) {
            Ok(PunchKind::Start)
        } else if str_eq(s, end) {
            Ok(PunchKind::End)
        } else {
            Err(StorageError::CorruptRow { column: "kind", value: s.to_owned() })
        }
    }
}

/// Character-by-character equality of two strings.
pub fn str_eq(a: &str, b: &str) -> (r: bool)
    ensures
        r == (a@ == b@),
{
    let n = a.unicode_len();
    if n != b.unicode_len() {
        return false;
    }
    let mut i: usize = 0;
    while i < n
        invariant
            n == a@.len(),
            n == b@.len(),
            i <= n,
            forall|j: int| 0 <= j < i ==> a@[j] == b@[j],
        decreases n - i,
    {
        if a.get_char(i) != b.get_char(i) {
            return false;
        }
        i = i + 1;
    }
    assert(a@ =~= b@);
    true
}

/// One stored start/end event.
#[derive(Debug, Clone, Copy, PartialEq, Eq)]
pub struct Punch {
    /// Row id: monotonically increasing with insertion, the tie-breaker for
    /// two punches at one instant.
    pub id: i64,
    /// The instant, as whole seconds since the Unix epoch (UTC).
    /// Minute-granular: always a whole minute.
    pub at_utc: i64,
    /// The local calendar date this punch belongs to.
    pub date: Date,
    /// Whether this is a `start` or an `end` event.
    pub kind: PunchKind,
}

/// One stored work-log entry.
#[derive(Debug, Clone, PartialEq, Eq)]
pub struct Note {
    pub id: i64,
    /// The local calendar date the note is attached to.
    pub date: Date,
    /// The note text, already trimmed; never empty.
    pub body: String,
    /// When it was written, as whole seconds since the Unix epoch (UTC).
    pub created_at_utc: i64,
}

/// Failures surfaced by storage.
#[derive(Debug)]
pub enum StorageError {
    /// A `rusqlite` failure propagated verbatim.
    Db(rusqlite::Error),
    /// A stored column failed to parse back into its typed form.
    CorruptRow { column: &'static str, value: String },
    /// A note body that is empty, or entirely whitespace. Nothing written.
    EmptyNote,
    /// The local wall-clock time does not exist on that date (a
    /// spring-forward gap). Nothing written.
    NonexistentLocalTime { date: Date, time: Time },
}

/// A character of the Unicode White_Space property (what
/// `char::is_whitespace` accepts): U+0009..=U+000D, U+0020, U+0085,
/// U+00A0, U+1680, U+2000..=U+200A, U+2028, U+2029, U+202F, U+205F and
/// U+3000.
pub open spec fn is_white_space(c: char) -> bool {
    let n = c as u32;
    ||| 0x9 <= n <= 0xd
    ||| n == 0x20
    ||| n == 0x85
    ||| n == 0xa0
    ||| n == 0x1680
    ||| 0x2000 <= n <= 0x200a
    ||| n == 0x2028
    ||| n == 0x2029
    ||| n == 0x202f
    ||| n == 0x205f
    ||| n == 0x3000
}

/// `s` without its leading whitespace.
pub open spec fn trim_start_text(s: Seq<char>) -> Seq<char>
    decreases s.len(),
{
    if s.len() > 0 && is_white_space(s[0]) {
        trim_start_text(s.drop_first())
    } else {
        s
    }
}

/// `s` without its trailing whitespace.
pub open spec fn trim_end_text(s: Seq<char>) -> Seq<char>
    decreases s.len(),
{
    if s.len() > 0 && is_white_space(s.last()) {
        trim_end_text(s.drop_last())
    } else {
        s
    }
}

/// What `str::trim` leaves of a text: leading and trailing whitespace
/// removed.
pub open spec fn trimmed(s: Seq<char>) -> Seq<char> {
    trim_end_text(trim_start_text(s))
}

/// `str::trim`. Claims its documented result: the text with leading and
/// trailing characters of the Unicode White_Space property removed.
#[verifier::external_body]
pub(crate) fn trim(s: &str) -> (r: &str)
    ensures
        r@ == trimmed(s@),
{
    s.trim()
}

/// The write-path check of a note body: rejected when nothing is left
/// after trimming, otherwise stored trimmed.
pub fn checked_note_body(body: &str) -> (r: Result<String, StorageError>)
    ensures
        trimmed(body@).len() == 0 ==> r matches Err(StorageError::EmptyNote),
        trimmed(body@).len() > 0 ==> (r matches Ok(s) && s@ == trimmed(body@)),
{
    let t = trim(body);
    if t.unicode_len() == 0 {
        Err(StorageError::EmptyNote)
    } else {
        Ok(t.to_owned())
    }
}

// ---------------------------------------------------------------------------
// Write path: from a local wall-clock reading to stored columns
// ---------------------------------------------------------------------------

/// The instant a local reading is stored at: the one instant that shows it,
/// the earlier of two on a fall-back repeat; a reading in a spring-forward
/// gap is refused.
pub fn pick_instant(found: LocalInstants, date: &Date, time: &Time) -> (r: Result<i64, StorageError>)
    ensures
        found matches LocalInstants::Single(a) ==> (r matches Ok(x) && x == a),
        found matches LocalInstants::Ambiguous(a, _) ==> (r matches Ok(x) && x == a),
        found is Nonexistent ==> (r matches Err(StorageError::NonexistentLocalTime { date: d, time: t })
            && d == *date && t == *time),
{
    match found {
        LocalInstants::Single(a) => Ok(a),
        LocalInstants::Ambiguous(a, _) => Ok(a),
        LocalInstants::Nonexistent => Err(StorageError::NonexistentLocalTime { date: *date, time: *time }),
    }
}

/// A punch for a local wall-clock `date` `time` in the machine's time zone,
/// without touching the database: its instant (see `pick_instant`) and the
/// local date recomputed from that instant. Minute-granular by
/// construction.
pub fn punch_from_local(id: i64, kind: PunchKind, date: &Date, time: &Time) -> (r: Result<Punch, StorageError>)
    requires
        0 <= date.y() <= 9999,
    ensures
        r matches Ok(p) ==> p.id == id && p.kind == kind && valid_instant(p.at_utc as int)
            && naive_instant(*date, *time) - 86400 < p.at_utc < naive_instant(*date, *time) + 86400
            && utc_day(p.at_utc as int) - 1 <= p.date.num() <= utc_day(p.at_utc as int) + 1,
        r matches Err(e) ==> (e matches StorageError::NonexistentLocalTime { date: d, time: t }
            && d == *date && t == *time),
{
    date.valid();
    time.valid();
    proof {
        crate::calendar::lemma_day_number_bounds(*date);
    }
    let at = pick_instant(local_instants(date, time), date, time)?;
    let local = local_date_of(at);
    Ok(Punch { id, at_utc: at, date: local, kind })
}

/// `HH:MM:SS` of the UTC time of day of an instant.
pub open spec fn utc_hms_text(t: int) -> Seq<char> {
    let secs = t % 86400;
    zero_padded((secs / 3600) as nat, 2) + seq![':'] + zero_padded(((secs % 3600) / 60) as nat, 2)
        + seq![':'] + zero_padded((secs % 60) as nat, 2)
}

/// What `format("%Y-%m-%dT%H:%M:%SZ")` writes for an instant: its UTC
/// date as `%Y-%m-%d` (the date whose day number is `utc_day(t)`), `T`,
/// its UTC time of day, `Z`.
pub open spec fn utc_stamp(t: int) -> Seq<char> {
    let ymd = choose|ymd: (int, int, int)|
        valid_ymd(ymd.0, ymd.1, ymd.2) && day_number(ymd.0, ymd.1, ymd.2) == utc_day(t);
    ymd_text(ymd.0, ymd.1, ymd.2) + seq!['T'] + utc_hms_text(t) + seq!['Z']
}

/// `chrono`: `DateTime::<Utc>::from_timestamp(at, 0)` formatted with
/// `%Y-%m-%dT%H:%M:%SZ`. Claims the documented text (`utc_stamp`): the
/// UTC calendar date and time of day of the instant.
#[verifier::external_body]
fn format_utc(at: i64) -> (r: String)
    requires
        valid_instant(at as int),
    ensures
        r@ == utc_stamp(at as int),
{
    chrono::DateTime::from_timestamp(at, 0).unwrap().format("%Y-%m-%dT%H:%M:%SZ").to_string()
}

/// The stored text of a kind.
pub open spec fn kind_text(k: PunchKind) -> Seq<char> {
    match k {
        PunchKind::Start => "start"@,
        PunchKind::End => "end"@,
    }
}

/// The `(at_utc, date, kind)` column texts a punch is stored as: the
/// fixed-width `Z`-suffixed instant, `YYYY-MM-DD`, `start`/`end`.
pub fn punch_columns(p: &Punch) -> (r: (String, String, &'static str))
    requires
        valid_instant(p.at_utc as int),
    ensures
        r.0@ == utc_stamp(p.at_utc as int),
        r.1@ == ymd_text(p.date.y(), p.date.m(), p.date.d()),
        r.2@ == kind_text(p.kind),
{
    (format_utc(p.at_utc), format_date(&p.date), p.kind.as_str())
}

/// An instant with its seconds dropped (what `with_second(0)` gives).
pub open spec fn minute_floor(at: int) -> int {
    at - at % 60
}

/// The `(date, body, created_at_utc)` column texts of a new note: the body
/// is refused when nothing is left after trimming, otherwise stored
/// trimmed; the creation instant is `now` floored to the minute.
pub fn note_columns(date: &Date, body: &str, now: i64) -> (r: Result<(String, String, String), StorageError>)
    requires
        valid_instant(now as int),
    ensures
        trimmed(body@).len() == 0 ==> r matches Err(StorageError::EmptyNote),
        trimmed(body@).len() > 0 ==> (r matches Ok((d, b, c)) && d@ == ymd_text(date.y(), date.m(), date.d())
            && b@ == trimmed(body@) && c@ == utc_stamp(minute_floor(now as int))),
{
    let stored = checked_note_body(body)?;
    let mut secs = now % 60;
    if secs < 0 {
        secs = secs + 60;
    }
    assert(secs == (now as int) % 60);
    let created = now - secs;
    Ok((format_date(date), stored, format_utc(created)))
}

// ---------------------------------------------------------------------------
// Read path: from stored columns back to values
// ---------------------------------------------------------------------------

/// What `DateTime::parse_from_rfc3339` reads from a text, as Unix seconds.
pub uninterp spec fn rfc3339_instant(s: Seq<char>) -> Option<int>;

/// `chrono`: `DateTime::parse_from_rfc3339(s)`, its `timestamp()`. Claims
/// that the result is a function of the text (named `rfc3339_instant`)
/// and, when present, an instant a `DateTime` holds.
#[verifier::external_body]
fn parse_rfc3339(s: &str) -> (r: Option<i64>)
    ensures
        match r {
            Some(t) => rfc3339_instant(s@) == Some(t as int) && valid_instant(t as int),
            None => rfc3339_instant(s@) is None,
        },
{
    match chrono::DateTime::parse_from_rfc3339(s) {
        Ok(dt) => Some(dt.timestamp()),
        Err(_) => None,
    }
}

/// A stored instant column read back; unreadable text is a corrupt row
/// naming the column.
pub fn stored_instant(s: &str, column: &'static str) -> (r: Result<i64, StorageError>)
    ensures
        match rfc3339_instant(s@) {
            Some(t) => r matches Ok(x) && x as int == t,
            None => r matches Err(StorageError::CorruptRow { column: c, value }) && c == column
                && value@ == s@,
        },
{
    match parse_rfc3339(s) {
        Some(t) => Ok(t),
        None => Err(StorageError::CorruptRow { column, value: s.to_owned() }),
    }
}

/// A stored date column read back; unreadable text is a corrupt row
/// naming the column.
pub fn stored_date(s: &str, column: &'static str) -> (r: Result<Date, StorageError>)
    ensures
        match ymd_parse(s@) {
            Some(ymd) => r matches Ok(d) && d.ymd() == ymd,
            None => r matches Err(StorageError::CorruptRow { column: c, value }) && c == column
                && value@ == s@,
        },
{
    match parse_ymd_text(s) {
        Some(d) => Ok(d),
        None => Err(StorageError::CorruptRow { column, value: s.to_owned() }),
    }
}

/// A `punches` row read back, its columns checked in order: `at_utc`,
/// `date`, `kind`.
pub fn punch_from_row(id: i64, at_utc: &str, date: &str, kind: &str) -> (r: Result<Punch, StorageError>)
    ensures
        r matches Ok(p) ==> p.id == id && rfc3339_instant(at_utc@) == Some(p.at_utc as int)
            && ymd_parse(date@) == Some(p.date.ymd()) && kind@ == kind_text(p.kind)
            && valid_instant(p.at_utc as int),
        rfc3339_instant(at_utc@) is None ==> (r matches Err(StorageError::CorruptRow { column, value })
            && column@ == "at_utc"@ && value@ == at_utc@),
        rfc3339_instant(at_utc@) is Some && ymd_parse(date@) is None ==> (r matches Err(
            StorageError::CorruptRow { column, value },
        ) && column@ == "date"@ && value@ == date@),
        rfc3339_instant(at_utc@) is Some && ymd_parse(date@) is Some && kind@ != "start"@ && kind@
            != "end"@ ==> (r matches Err(StorageError::CorruptRow { column, value }) && column@ == "kind"@
            && value@ == kind@),
        rfc3339_instant(at_utc@) is Some && ymd_parse(date@) is Some && (kind@ == "start"@ || kind@
            == "end"@) ==> r is Ok,
{
    let at = match parse_rfc3339(at_utc) {
        Some(t) => t,
        None => return Err(StorageError::CorruptRow { column: "at_utc", value: at_utc.to_owned() }),
    };
    let d = stored_date(date, "date")?;
    let k = PunchKind::from_str(kind)?;
    Ok(Punch { id, at_utc: at, date: d, kind: k })
}

/// A `notes` row read back, its columns checked in order: `date`,
/// `created_at_utc`.
pub fn note_from_row(id: i64, date: &str, body: String, created_at_utc: &str) -> (r: Result<Note, StorageError>)
    ensures
        r matches Ok(n) ==> n.id == id && ymd_parse(date@) == Some(n.date.ymd()) && n.body@ == body@
            && rfc3339_instant(created_at_utc@) == Some(n.created_at_utc as int),
        ymd_parse(date@) is None ==> (r matches Err(StorageError::CorruptRow { column, value })
            && column@ == "date"@ && value@ == date@),
        ymd_parse(date@) is Some && rfc3339_instant(created_at_utc@) is None ==> (r matches Err(
            StorageError::CorruptRow { column, value },
        ) && column@ == "created_at_utc"@ && value@ == created_at_utc@),
        ymd_parse(date@) is Some && rfc3339_instant(created_at_utc@) is Some ==> r is Ok,
{
    let d = stored_date(date, "date")?;
    let created = stored_instant(created_at_utc, "created_at_utc")?;
    Ok(Note { id, date: d, body, created_at_utc: created })
}

// ---------------------------------------------------------------------------
// Messages
// ---------------------------------------------------------------------------

/// `rusqlite::Error`'s `Display` text. The text depends on the error's
/// contents, which are opaque here; nothing is claimed of it.
#[verifier::external_body]
fn db_error_text(e: &rusqlite::Error) -> String {
    e.to_string()
}

/// The message of a storage failure (the `Db` text is `rusqlite`'s own).
pub open spec fn storage_error_text(e: StorageError, db_text: Seq<char>) -> Seq<char> {
    match e {
        StorageError::Db(_) => "database error: "@ + db_text,
        StorageError::CorruptRow { column, value } => "corrupt stored value in column "@ + column@
            + ": "@ + debug_quoted(value@),
        StorageError::EmptyNote => "note body is empty or whitespace-only"@,
        StorageError::NonexistentLocalTime { date, time } => "local time "@ + ymd_text(
            date.y(),
            date.m(),
            date.d(),
        ) + seq![' '] + hm_text(time.hm().0, time.hm().1) + ":00"@
            + " does not exist (spring-forward DST gap)"@,
    }
}

impl StorageError {
    /// The one-line message.
    pub fn message(&self) -> (r: String)
        ensures
            !(self is Db) ==> r@ == storage_error_text(*self, Seq::empty()),
            self is Db ==> exists|t: Seq<char>| r@ == storage_error_text(*self, t),
    {
        let mut s = String::new();
        match self {
            StorageError::Db(e) => {
                push_str(&mut s, "database error: ");
                let t = db_error_text(e);
                push_str(&mut s, t.as_str());
                assert(s@ =~= storage_error_text(*self, t@));
            },
            StorageError::CorruptRow { column, value } => {
                push_str(&mut s, "corrupt stored value in column ");
                push_str(&mut s, column);
                push_str(&mut s, ": ");
                let q = debug_quote(value.as_str());
                push_str(&mut s, q.as_str());
            },
            StorageError::EmptyNote => push_str(&mut s, "note body is empty or whitespace-only"),
            StorageError::NonexistentLocalTime { date, time } => {
                push_str(&mut s, "local time ");
                let d = format_date(date);
                push_str(&mut s, d.as_str());
                crate::text::push_char(&mut s, ' ');
                push_time(&mut s, time);
                push_str(&mut s, ":00");
                push_str(&mut s, " does not exist (spring-forward DST gap)");
            },
        }
        s
    }
}

} // verus!
