use chrono::{Datelike, NaiveDate, TimeZone, Timelike, Utc};
use mlm::calendar::{Date, Time};
use mlm::cli::PunchArgs;
use mlm::cli::WeekTargetArgs;
use mlm::commands::{
    join_note, note_list_lines, note_recreate_line, punch_list_lines, punch_recreate_line,
    punch_recreate_line_at, punch_time, quote_shell_single, resolve_target_date, validate_entry_id,
    punch_request, EntryIdError, PunchRequestError,
};
use mlm::date::{Cause, WeekId};
use mlm::storage::{Note, Punch, PunchKind};
use mlm::time::{DurationParseError, TimeParseError};
use mlm::week_target::{target_request, WeekTargetError};

fn d(y: i32, m: u32, day: u32) -> Date {
    Date::from_ymd_opt(y, m, day).expect("test fixture is a real date")
}

fn t(h: u32, m: u32) -> Time {
    Time::from_hm_opt(h, m).unwrap()
}

fn wk(y: i32, w: u32) -> WeekId {
    WeekId::new(y, w, "test").expect("valid test week")
}

fn today() -> Date {
    d(2026, 2, 12)
}

fn note(date: Date, body: &str) -> Note {
    Note { id: 1, date, body: body.to_string(), created_at_utc: 1_770_897_600 }
}

fn unquote(quoted: &str) -> String {
    assert!(quoted.starts_with('\'') && quoted.ends_with('\''));
    quoted[1..quoted.len() - 1].replace("'\"'\"'", "'")
}

fn args(tokens: &[&str]) -> WeekTargetArgs {
    WeekTargetArgs { args: tokens.iter().map(|s| s.to_string()).collect() }
}

fn local_hm_of(at: i64) -> (u32, u32) {
    let local = Utc.timestamp_opt(at, 0).unwrap().with_timezone(&chrono::Local);
    (local.hour(), local.minute())
}

#[test]
fn quoting_round_trip_leading_flag_lookalike() {
    let body = "--verbose logging bug";
    let line = note_recreate_line(&note(today(), body), &today());
    assert!(!line.contains("--date"));
    let quoted = line.strip_prefix("mlm note ").expect("expected 'mlm note ' prefix");
    assert_eq!(unquote(quoted), body);
}

#[test]
fn quoting_round_trip_embedded_quote() {
    let body = "it's a 'quoted' fix";
    let line = note_recreate_line(&note(today(), body), &today());
    let quoted = line.strip_prefix("mlm note ").expect("expected 'mlm note ' prefix");
    assert_eq!(unquote(quoted), body);
}

#[test]
fn quote_shell_single_escapes_every_quote() {
    assert_eq!(quote_shell_single(""), "''");
    assert_eq!(quote_shell_single("plain"), "'plain'");
    assert_eq!(quote_shell_single("it's"), "'it'\"'\"'s'");
    assert_eq!(quote_shell_single("$(rm -rf /)"), "'$(rm -rf /)'");
}

#[test]
fn punch_recreate_line_uses_stop_not_end_verb() {
    let p = Punch { id: 1, at_utc: Utc.with_ymd_and_hms(2026, 2, 12, 9, 0, 0).unwrap().timestamp(), date: today(), kind: PunchKind::End };
    let line = punch_recreate_line(&p, &today());
    assert!(line.contains("mlm stop "), "line was {line:?}");
    assert!(!line.contains("mlm end"), "line was {line:?}");
}

#[test]
fn punch_recreate_line_uses_the_punch_own_local_time() {
    let at = Utc.with_ymd_and_hms(2026, 2, 12, 9, 0, 0).unwrap().timestamp();
    let p = Punch { id: 1, at_utc: at, date: today(), kind: PunchKind::Start };
    let (h, m) = local_hm_of(at);
    assert_eq!(punch_recreate_line(&p, &today()), format!("mlm start {h:02}:{m:02}"));
}

#[test]
fn punch_recreate_line_at_is_exact() {
    let p = Punch { id: 7, at_utc: 0, date: d(2026, 2, 10), kind: PunchKind::End };
    assert_eq!(punch_recreate_line_at(&p, &t(9, 5), &today()), "mlm stop 09:05 --date 2026-02-10");
    let q = Punch { id: 8, at_utc: 0, date: today(), kind: PunchKind::Start };
    assert_eq!(punch_recreate_line_at(&q, &t(17, 30), &today()), "mlm start 17:30");
}

#[test]
fn backslash_body_falls_back_to_plain_description() {
    let body = r"path C:\dir\file";
    let line = note_recreate_line(&note(d(2026, 2, 10), body), &today());
    assert_eq!(line, format!("deleted note (2026-02-10): {body}..."));
}

#[test]
fn backslash_body_description_keeps_only_the_first_line() {
    let line = note_recreate_line(&note(today(), "a\\b\r\nsecond"), &today());
    assert_eq!(line, "deleted note (2026-02-12): a\\b...");
}

#[test]
fn delete_recreate_line_omits_date_for_today_includes_for_other_date_punch() {
    let at = Utc.with_ymd_and_hms(2026, 2, 12, 9, 0, 0).unwrap().timestamp();
    let today_punch = Punch { id: 1, at_utc: at, date: today(), kind: PunchKind::Start };
    assert!(!punch_recreate_line(&today_punch, &today()).contains("--date"));
    let other = Punch { id: 2, at_utc: at - 2 * 86400, date: d(2026, 2, 10), kind: PunchKind::Start };
    assert!(punch_recreate_line(&other, &today()).contains("--date 2026-02-10"));
}

#[test]
fn delete_recreate_line_omits_date_for_today_includes_for_other_date_note() {
    assert!(!note_recreate_line(&note(today(), "today note"), &today()).contains("--date"));
    assert!(note_recreate_line(&note(d(2026, 2, 10), "other note"), &today()).contains("--date 2026-02-10"));
}

#[test]
fn note_recreate_line_date_precedes_body() {
    let line = note_recreate_line(&note(d(2026, 2, 10), "fixed migration runner bug"), &today());
    let date_idx = line.find("--date").expect("expected --date in line");
    let quote_idx = line.find('\'').expect("expected quoted body");
    assert!(date_idx < quote_idx, "expected --date to precede the quoted body in {line:?}");
    assert_eq!(line, "mlm note --date 2026-02-10 'fixed migration runner bug'");
}

#[test]
fn validate_entry_id_pluralizes_entry_count_correctly() {
    let err_one = validate_entry_id(0, 1).expect_err("expected error");
    assert!(err_one.message().contains("1 entry for this date"), "got: {err_one:?}");
    assert!(!err_one.message().contains("1 entries"), "got: {err_one:?}");
    let err_two = validate_entry_id(0, 2).expect_err("expected error");
    assert!(err_two.message().contains("2 entries for this date"), "got: {err_two:?}");
    let err_oob = validate_entry_id(5, 1).expect_err("expected error");
    assert!(err_oob.message().contains("1 entry for this date"), "got: {err_oob:?}");
}

#[test]
fn validate_entry_id_maps_one_based_ids() {
    assert_eq!(validate_entry_id(1, 2), Ok(0));
    assert_eq!(validate_entry_id(2, 2), Ok(1));
    assert_eq!(validate_entry_id(3, 2), Err(EntryIdError::OutOfRange { id: 3, count: 2 }));
    assert_eq!(validate_entry_id(0, 0), Err(EntryIdError::Zero { count: 0 }));
    assert_eq!(validate_entry_id(1, 0).unwrap_err().message(), "id 1 is out of range; only 0 entries for this date");
    assert_eq!(validate_entry_id(0, 3).unwrap_err().message(), "id must be 1 or greater (got 0); 3 entries for this date");
}

#[test]
fn listings_number_from_one() {
    let notes = vec![note(today(), "first note"), note(today(), "second note")];
    assert_eq!(note_list_lines(&notes), vec!["1  first note".to_string(), "2  second note".to_string()]);
    let at = Utc.with_ymd_and_hms(2026, 2, 12, 9, 0, 0).unwrap().timestamp();
    let punches = vec![
        Punch { id: 1, at_utc: at, date: today(), kind: PunchKind::Start },
        Punch { id: 2, at_utc: at + 8 * 3600, date: today(), kind: PunchKind::End },
    ];
    let lines = punch_list_lines(&punches);
    let (h1, m1) = local_hm_of(at);
    let (h2, m2) = local_hm_of(at + 8 * 3600);
    assert_eq!(lines, vec![format!("1  start {h1:02}:{m1:02}"), format!("2  end {h2:02}:{m2:02}")]);
}

#[test]
fn join_note_keeps_blank_tokens_rejectable() {
    assert_eq!(join_note(&vec![]), None);
    assert_eq!(join_note(&vec!["a".to_string(), "b".to_string()]), Some("a b".to_string()));
    assert_eq!(join_note(&vec!["".to_string()]), Some("".to_string()));
    assert_eq!(join_note(&vec!["  ".to_string()]), Some("  ".to_string()));
    assert_eq!(join_note(&vec!["kicked".to_string(), "off".to_string(), "--date".to_string(), "-1".to_string()]), Some("kicked off --date -1".to_string()));
}

#[test]
fn target_date_defaults_to_today_and_refuses_the_future() {
    assert_eq!(resolve_target_date(&None, &today()), Ok(today()));
    assert_eq!(resolve_target_date(&Some("-1".to_string()), &today()), Ok(d(2026, 2, 11)));
    assert_eq!(resolve_target_date(&Some("2026-02-13".to_string()), &today()).unwrap_err().cause, Cause::Future);
    assert_eq!(resolve_target_date(&Some("not-a-date".to_string()), &today()).unwrap_err().cause, Cause::Shape);
}

#[test]
fn punch_time_requires_a_time_away_from_today() {
    let now = t(18, 0);
    assert_eq!(punch_time(&None, &today(), &today(), &now), Ok(now));
    assert_eq!(punch_time(&None, &d(2026, 2, 11), &today(), &now), Err(TimeParseError::Required));
    assert_eq!(punch_time(&Some("9:05".to_string()), &d(2026, 2, 11), &today(), &now), Ok(t(9, 5)));
    assert_eq!(punch_time(&Some("9:5".to_string()), &today(), &today(), &now), Err(TimeParseError::InvalidFormat("9:5".to_string())));
}

#[test]
fn split_one_arg_is_duration() {
    assert_eq!(args(&["33h30m"]).split(), (None, "33h30m"));
}

#[test]
fn split_two_args_is_week_then_duration() {
    assert_eq!(args(&["2026-07", "33h30m"]).split(), (Some("2026-07"), "33h30m"));
}

#[test]
fn hyphen_duration_reaches_our_parser() {
    assert_eq!(args(&["-5h"]).split(), (None, "-5h"));
}

#[test]
fn target_request_explicit_week_and_duration() {
    let today = d(2020, 1, 1);
    assert_eq!(target_request(&args(&["2026-07", "33h30m"]), &today), Ok((wk(2026, 7), 2010)));
    assert_eq!(target_request(&args(&["2026-7", "33h30m"]), &today), Ok((wk(2026, 7), 2010)));
    assert_eq!(target_request(&args(&["2026-07", "0h"]), &today), Ok((wk(2026, 7), 0)));
    assert_eq!(target_request(&args(&["2026-08", "0m"]), &today), Ok((wk(2026, 8), 0)));
}

#[test]
fn target_request_omitted_week_is_the_current_week() {
    assert_eq!(target_request(&args(&["33h30m"]), &d(2026, 2, 12)), Ok((wk(2026, 7), 2010)));
    assert_eq!(target_request(&args(&["33h30m"]), &d(2025, 12, 29)), Ok((wk(2026, 1), 2010)));
}

#[test]
fn target_request_rejects_bad_tokens_week_first() {
    let today = d(2020, 1, 1);
    for bad in ["0", "abcd", "2027-53"] {
        assert!(matches!(target_request(&args(&[bad, "33h30m"]), &today), Err(WeekTargetError::Week(_))), "input {bad}");
        assert!(matches!(target_request(&args(&[bad, "junk"]), &today), Err(WeekTargetError::Week(_))), "input {bad}");
    }
    assert_eq!(target_request(&args(&["2026-07", "-5h"]), &today), Err(WeekTargetError::Duration(DurationParseError::Negative(-300))));
    for bad in ["10", "10x", ""] {
        assert_eq!(
            target_request(&args(&["2026-07", bad]), &today),
            Err(WeekTargetError::Duration(DurationParseError::InvalidFormat(bad.to_string())))
        );
    }
}

#[test]
fn exit_code_is_zero_only_for_ok() {
    assert_eq!(mlm::exit_code(&Ok(())), 0);
    assert_eq!(mlm::exit_code(&Err(anyhow::Error::msg("boom"))), 1);
}

#[test]
fn dates_convert_like_chrono() {
    let n = NaiveDate::from_ymd_opt(2026, 2, 12).unwrap();
    assert_eq!(d(n.year(), n.month(), n.day()), today());
}

fn punch_args(time: Option<&str>, date: Option<&str>, note: &[&str]) -> PunchArgs {
    PunchArgs {
        time: time.map(|x| x.to_string()),
        date: date.map(|x| x.to_string()),
        note: note.iter().map(|x| x.to_string()).collect(),
    }
}

#[test]
fn a_punch_request_checks_date_then_time_then_note() {
    let today = d(2026, 2, 12);
    let now = t(18, 0);
    let ok = punch_request(&punch_args(None, Some("-1"), &[]), &today, &now);
    assert!(matches!(ok, Err(PunchRequestError::Time(TimeParseError::Required))));
    let ok = punch_request(&punch_args(Some("9:30"), Some("-1"), &["wrapped", "up"]), &today, &now).unwrap();
    assert_eq!(ok, (d(2026, 2, 11), t(9, 30), Some("wrapped up".to_string())));
    let ok = punch_request(&punch_args(None, None, &[]), &today, &now).unwrap();
    assert_eq!(ok, (today, now, None));
    let err = punch_request(&punch_args(Some("25:00"), Some("2026-02-13"), &["  "]), &today, &now).unwrap_err();
    assert!(matches!(err, PunchRequestError::Date(ref e) if e.cause == Cause::Future));
    let err = punch_request(&punch_args(Some("25:00"), None, &["  "]), &today, &now).unwrap_err();
    assert!(matches!(err, PunchRequestError::Time(TimeParseError::OutOfRange { .. })));
    let err = punch_request(&punch_args(Some("09:00"), None, &["  "]), &today, &now).unwrap_err();
    assert!(matches!(err, PunchRequestError::Note(_)));
    assert_eq!(err.message(), "note body is empty or whitespace-only");
}
