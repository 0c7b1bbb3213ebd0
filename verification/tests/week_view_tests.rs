use chrono::NaiveDate;
use mlm::calendar::Date;
use mlm::date::{format_date, WeekId};
use mlm::storage::{Punch, PunchKind};
use mlm::storage::PunchKind::{End, Start};
use mlm::status::{build_ledger, DayData};
use mlm::week::WeekData;
use mlm::week_view::{build_rows, render_week, WeekRow, WeekView};

const WEEKDAY_ABBREVS: [&str; 7] = ["Mon", "Tue", "Wed", "Thu", "Fri", "Sat", "Sun"];

fn d(y: i32, m: u32, day: u32) -> Date {
    Date::from_ymd_opt(y, m, day).expect("test fixture is a real date")
}

fn wk(y: i32, w: u32) -> WeekId {
    WeekId::new(y, w, "test").expect("test fixture is a real ISO week")
}

fn row(weekday: &'static str, date: Date, minutes: i64) -> WeekRow {
    WeekRow { weekday_abbrev: weekday, date_display: format_date(&date), minutes, is_ongoing: false, has_anomaly: false }
}

fn example_a() -> WeekView {
    let mut rows = [
        row("Mon", d(2026, 2, 9), 490),
        row("Tue", d(2026, 2, 10), 470),
        row("Wed", d(2026, 2, 11), 480),
        row("Thu", d(2026, 2, 12), 445),
        row("Fri", d(2026, 2, 13), 0),
        row("Sat", d(2026, 2, 14), 0),
        row("Sun", d(2026, 2, 15), 0),
    ];
    rows[3].is_ongoing = true;
    WeekView {
        week_id_display: "2026-07".to_string(),
        span_start_display: "2026-02-09".to_string(),
        span_end_display: "2026-02-15".to_string(),
        headline: "10h 45m left by end of Thursday".to_string(),
        rows,
        carry_in_minutes: -130,
        worked_minutes: 1885,
        fulfillment_minutes: 1755,
        target_minutes: 2400,
    }
}

fn example_b() -> WeekView {
    let rows = [
        row("Mon", d(2026, 2, 2), 450),
        row("Tue", d(2026, 2, 3), 480),
        row("Wed", d(2026, 2, 4), 465),
        row("Thu", d(2026, 2, 5), 490),
        row("Fri", d(2026, 2, 6), 325),
        row("Sat", d(2026, 2, 7), 0),
        row("Sun", d(2026, 2, 8), 0),
    ];
    WeekView {
        week_id_display: "2026-06".to_string(),
        span_start_display: "2026-02-02".to_string(),
        span_end_display: "2026-02-08".to_string(),
        headline: "Total still owed: 03h 10m".to_string(),
        rows,
        carry_in_minutes: 0,
        worked_minutes: 2210,
        fulfillment_minutes: 2210,
        target_minutes: 2400,
    }
}

const EXAMPLE_A_GOLDEN: &str = "\
Week 2026-07 (2026-02-09 - 2026-02-15)

10h 45m left by end of Thursday

  Mon 2026-02-09   08h 10m
  Tue 2026-02-10   07h 50m
  Wed 2026-02-11   08h 00m
  Thu 2026-02-12   07h 25m (ongoing)
  Fri 2026-02-13   00h 00m
  Sat 2026-02-14   00h 00m
  Sun 2026-02-15   00h 00m

Carry-in:      -02h 10m
Worked:        31h 25m
Fulfillment:   29h 15m
Target:        40h 00m
";

const EXAMPLE_B_GOLDEN: &str = "\
Week 2026-06 (2026-02-02 - 2026-02-08)

Total still owed: 03h 10m

  Mon 2026-02-02   07h 30m
  Tue 2026-02-03   08h 00m
  Wed 2026-02-04   07h 45m
  Thu 2026-02-05   08h 10m
  Fri 2026-02-06   05h 25m
  Sat 2026-02-07   00h 00m
  Sun 2026-02-08   00h 00m

Carry-in:      00h 00m
Worked:        36h 50m
Fulfillment:   36h 50m
Target:        40h 00m
";

#[test]
fn a1_current_week_golden_byte_exact() {
    assert_eq!(render_week(&example_a()), EXAMPLE_A_GOLDEN);
}

#[test]
fn a2_ongoing_marker_only_on_thursday_row() {
    let out = render_week(&example_a());
    let lines: Vec<&str> = out.lines().collect();
    let ongoing_lines: Vec<&&str> = lines.iter().filter(|l| l.contains("(ongoing)")).collect();
    assert_eq!(ongoing_lines.len(), 1);
    assert!(ongoing_lines[0].contains("Thu 2026-02-12"));
}

#[test]
fn a3_past_week_golden_full_table_not_a_one_liner() {
    let out = render_week(&example_b());
    assert_eq!(out, EXAMPLE_B_GOLDEN);
    for date in ["2026-02-02", "2026-02-03", "2026-02-04", "2026-02-05", "2026-02-06", "2026-02-07", "2026-02-08"] {
        assert!(out.contains(date), "missing row for {date}");
    }
    for label in ["Carry-in:", "Worked:", "Fulfillment:", "Target:"] {
        assert!(out.contains(label), "missing trailing label {label}");
    }
}

#[test]
fn a4_future_week_all_zero_rows_full_block_present() {
    let rows = [
        row("Mon", d(2026, 3, 2), 0),
        row("Tue", d(2026, 3, 3), 0),
        row("Wed", d(2026, 3, 4), 0),
        row("Thu", d(2026, 3, 5), 0),
        row("Fri", d(2026, 3, 6), 0),
        row("Sat", d(2026, 3, 7), 0),
        row("Sun", d(2026, 3, 8), 0),
    ];
    let view = WeekView {
        week_id_display: "2026-10".to_string(),
        span_start_display: "2026-03-02".to_string(),
        span_end_display: "2026-03-08".to_string(),
        headline: "Total still owed: 40h 00m".to_string(),
        rows,
        carry_in_minutes: 0,
        worked_minutes: 0,
        fulfillment_minutes: 0,
        target_minutes: 2400,
    };
    let out = render_week(&view);
    assert!(!out.contains("(ongoing)"));
    assert!(out.contains("Target:        40h 00m"));
    assert_eq!(out.lines().count(), 16);
}

#[test]
fn a5_never_touched_week_seven_zero_rows() {
    let rows = std::array::from_fn(|i| row(WEEKDAY_ABBREVS[i], d(2026, 5, 4 + i as u32), 0));
    let view = WeekView {
        week_id_display: "2026-20".to_string(),
        span_start_display: "2026-05-04".to_string(),
        span_end_display: "2026-05-10".to_string(),
        headline: "Total still owed: 43h 12m".to_string(),
        rows,
        carry_in_minutes: -1872,
        worked_minutes: 0,
        fulfillment_minutes: -1872,
        target_minutes: 2400,
    };
    let out = render_week(&view);
    let zero_rows = out.lines().filter(|l| l.starts_with("  ") && l.contains("00h 00m")).count();
    assert_eq!(zero_rows, 7);
}

#[test]
fn a6_anomaly_marker_present_only_on_flagged_row() {
    let mut view = example_b();
    view.rows[2].has_anomaly = true;
    let out = render_week(&view);
    let marker_lines: Vec<&str> = out.lines().filter(|l| l.contains("[!]")).collect();
    assert_eq!(marker_lines.len(), 1);
    assert_eq!(marker_lines[0], "  Wed 2026-02-04   07h 45m  [!]");
}

#[test]
fn a7_ongoing_and_anomaly_ordering() {
    let mut view = example_a();
    view.rows[3].has_anomaly = true;
    let out = render_week(&view);
    assert!(out.contains("07h 25m (ongoing)  [!]"));
}

#[test]
fn a8_negative_carry_in_and_fulfillment_formatting() {
    let out = render_week(&example_a());
    assert!(out.contains("Carry-in:      -02h 10m"));
    let mut view = example_a();
    view.fulfillment_minutes = -50;
    let out2 = render_week(&view);
    assert!(out2.contains("Fulfillment:   -00h 50m"));
}

#[test]
fn a9_default_target_display() {
    let out = render_week(&example_a());
    assert!(out.contains("Target:        40h 00m"));
}

#[test]
fn a10_zero_target_renders_explicitly() {
    let mut view = example_a();
    view.target_minutes = 0;
    let out = render_week(&view);
    assert!(out.contains("Target:        00h 00m"));
}

#[test]
fn a11_plain_ascii_audit() {
    let mut b = example_b();
    b.rows[2].has_anomaly = true;
    let mut a = example_a();
    a.rows[3].has_anomaly = true;
    for out in [render_week(&example_a()), render_week(&example_b()), render_week(&b), render_week(&a)] {
        for byte in out.bytes() {
            assert!(byte == b'\n' || (0x20..=0x7E).contains(&byte), "non-ASCII-printable byte {byte:#x} in {out:?}");
        }
        assert!(!out.contains('\u{2013}'));
        assert!(!out.contains('\u{2014}'));
        assert!(!out.contains('\u{2500}'));
    }
}

#[test]
fn a12_no_trailing_whitespace_exact_line_count() {
    for out in [render_week(&example_a()), render_week(&example_b())] {
        assert!(out.ends_with('\n'));
        assert_eq!(out.matches('\n').count(), 16);
        let lines: Vec<&str> = out.split('\n').collect();
        assert_eq!(lines.len(), 17);
        assert_eq!(lines[16], "");
        for line in &lines[..16] {
            assert_eq!(*line, line.trim_end(), "trailing whitespace in {line:?}");
        }
        assert_eq!(lines[1], "");
        assert_eq!(lines[3], "");
        assert_eq!(lines[11], "");
    }
}

#[test]
fn a13_headline_passthrough_verbatim() {
    let mut view = example_a();
    view.headline = "XYZZY".to_string();
    let out = render_week(&view);
    let lines: Vec<&str> = out.lines().collect();
    assert_eq!(lines[2], "XYZZY");
}

#[test]
fn a14_row_ordering_is_mon_to_sun() {
    let out = render_week(&example_a());
    let day_lines: Vec<&str> = out
        .lines()
        .filter(|l| l.starts_with("  "))
        .filter(|l| WEEKDAY_ABBREVS.iter().any(|a| l.trim_start().starts_with(a)))
        .collect();
    assert_eq!(day_lines.len(), 7);
    for (i, abbr) in WEEKDAY_ABBREVS.iter().enumerate() {
        assert!(day_lines[i].trim_start().starts_with(abbr), "row {i}");
    }
}

fn week_dates() -> [Date; 7] {
    wk(2026, 7).dates()
}

fn instant(date: Date, h: u32, m: u32) -> i64 {
    NaiveDate::from_ymd_opt(date.year(), date.month(), date.day())
        .unwrap()
        .and_hms_opt(h, m, 0)
        .unwrap()
        .and_utc()
        .timestamp()
}

fn punch(id: i64, date: Date, hhmm: (u32, u32), kind: PunchKind) -> Punch {
    Punch { id, at_utc: instant(date, hhmm.0, hhmm.1), date, kind }
}

fn now_utc(y: i32, m: u32, day: u32, h: u32, mi: u32) -> i64 {
    instant(d(y, m, day), h, mi)
}

#[test]
fn b1_seven_rows_always_zero_punches() {
    let rows = build_rows(week_dates(), &[], &d(2026, 2, 9), now_utc(2026, 2, 9, 12, 0));
    assert_eq!(rows.len(), 7);
    for r in &rows {
        assert_eq!(r.minutes, 0);
        assert!(!r.is_ongoing);
        assert!(!r.has_anomaly);
    }
}

#[test]
fn b2_bucketing_does_not_pair_across_midnight() {
    let tue = d(2026, 2, 10);
    let wed = d(2026, 2, 11);
    let punches = vec![punch(1, tue, (23, 30), Start), punch(2, wed, (0, 45), End)];
    let rows = build_rows(week_dates(), &punches, &d(2026, 2, 9), now_utc(2026, 2, 11, 1, 0));
    let tue_row = &rows[1];
    let wed_row = &rows[2];
    assert_eq!(tue_row.minutes, 0);
    assert!(!tue_row.has_anomaly, "a single open stint is not an anomaly");
    assert_eq!(wed_row.minutes, 0);
    assert!(wed_row.has_anomaly, "orphaned end must flag an anomaly");
}

#[test]
fn b3_completed_stints_only_totals() {
    let today = d(2026, 2, 12);
    let punches = vec![
        punch(1, today, (9, 0), Start),
        punch(2, today, (12, 0), End),
        punch(3, today, (13, 0), Start),
        punch(4, today, (17, 0), End),
        punch(5, today, (17, 45), Start),
    ];
    let rows = build_rows(week_dates(), &punches, &today, now_utc(2026, 2, 12, 18, 0));
    let thu = &rows[3];
    assert_eq!(thu.minutes, 180 + 240);
    assert!(thu.is_ongoing);
}

#[test]
fn b4_orphaned_end_contributes_nothing() {
    let day = d(2026, 2, 11);
    let punches = vec![punch(1, day, (9, 0), Start), punch(2, day, (12, 0), End), punch(3, day, (18, 0), End)];
    let rows = build_rows(week_dates(), &punches, &d(2026, 2, 9), now_utc(2026, 2, 11, 19, 0));
    let wed = &rows[2];
    assert_eq!(wed.minutes, 180);
    assert!(wed.has_anomaly);
}

#[test]
fn b5_is_ongoing_false_on_past_date_with_dangling_start() {
    let past_week = wk(2026, 2).dates();
    let mon = past_week[0];
    let punches = vec![punch(1, mon, (9, 0), Start)];
    let rows = build_rows(past_week, &punches, &d(2026, 2, 12), now_utc(2026, 2, 12, 18, 0));
    assert!(!rows[0].is_ongoing);
    assert_eq!(rows[0].minutes, 0);
}

#[test]
fn b6_multi_open_flags_the_row() {
    let today = d(2026, 2, 12);
    let punches = vec![punch(1, today, (9, 0), Start), punch(2, today, (11, 0), Start)];
    let rows = build_rows(week_dates(), &punches, &today, now_utc(2026, 2, 12, 12, 0));
    let thu = &rows[3];
    assert!(thu.has_anomaly);
    assert!(thu.is_ongoing);
    assert_eq!(thu.minutes, 0);
}

#[test]
fn b7_zero_length_stint_no_anomaly() {
    let day = d(2026, 2, 9);
    let punches = vec![punch(1, day, (9, 0), Start), punch(2, day, (9, 0), End)];
    let rows = build_rows(week_dates(), &punches, &d(2026, 2, 9), now_utc(2026, 2, 9, 12, 0));
    assert_eq!(rows[0].minutes, 0);
    assert!(!rows[0].has_anomaly);
}

#[test]
fn build_rows_labels_every_date_of_the_week() {
    let rows = build_rows(week_dates(), &[], &d(2026, 2, 9), now_utc(2026, 2, 9, 12, 0));
    for (i, r) in rows.iter().enumerate() {
        assert_eq!(r.weekday_abbrev, WEEKDAY_ABBREVS[i]);
        assert_eq!(r.date_display, format_date(&week_dates()[i]));
    }
}

#[test]
fn b8_rows_sum_to_week_accounting_worked() {
    let week = wk(2026, 7);
    let dates = week.dates();
    let punches = vec![
        punch(1, dates[0], (9, 0), Start),
        punch(2, dates[0], (17, 0), End),
        punch(3, dates[2], (8, 0), Start),
        punch(4, dates[2], (16, 30), End),
    ];
    let now = now_utc(2026, 2, 15, 20, 0);
    let rows = build_rows(dates, &punches, &d(2026, 2, 15), now);
    let row_sum: i64 = rows.iter().map(|r| r.minutes).sum();

    let days: Vec<DayData> = dates
        .iter()
        .map(|date| DayData {
            date: *date,
            has_notes: false,
            prev: Vec::new(),
            punches: punches.iter().filter(|p| p.date == *date).copied().collect(),
            next: Vec::new(),
        })
        .collect();
    let ledger = build_ledger(&days, &Vec::new(), now);
    assert_eq!(row_sum, ledger.worked_minutes(week));
    assert_eq!(row_sum, 480 + 510);
}
