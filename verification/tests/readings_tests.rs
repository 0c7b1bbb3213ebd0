use mlm::calendar::{Date, Time};
use mlm::commands::punch_list_lines_at;
use mlm::date::WeekId;
use mlm::status::{
    build_stint_lines_at, daily_target_hint, eod_instant, status_view_at, to_anomalies_at, EodState,
    LocalReadings, StintEnd,
};
use mlm::stint::classify;
use mlm::storage::{Note, Punch, PunchKind};
use mlm::week::WeekAccounting;

fn d(y: i32, m: u32, day: u32) -> Date {
    Date::from_ymd_opt(y, m, day).unwrap()
}

fn t(h: u32, m: u32) -> Time {
    Time::from_hm_opt(h, m).unwrap()
}

fn thursday() -> Date {
    d(2026, 2, 12)
}

fn punch(id: i64, at_utc: i64, kind: PunchKind) -> Punch {
    Punch { id, at_utc, date: thursday(), kind }
}

const NINE: i64 = 1_770_886_800;

fn day_with_one_stint_and_one_open() -> mlm::stint::DayStints {
    classify(
        &[
            punch(1, NINE, PunchKind::Start),
            punch(2, NINE + 3 * 3600, PunchKind::End),
            punch(3, NINE + 4 * 3600, PunchKind::Start),
        ],
        NINE + 5 * 3600,
    )
}

#[test]
fn stint_rows_read_start_and_end_from_their_own_readings() {
    let day = day_with_one_stint_and_one_open();
    let rows = build_stint_lines_at(&day, &vec![t(10, 0)], &vec![t(13, 0)], &vec![t(14, 0)]);
    assert_eq!(rows.len(), 2);
    assert_eq!(rows[0].start, t(10, 0));
    assert_eq!(rows[0].end, StintEnd::At(t(13, 0)));
    assert_eq!(rows[0].duration_minutes, 180);
    assert_eq!(rows[1].start, t(14, 0));
    assert_eq!(rows[1].end, StintEnd::Now);
    assert_eq!(rows[1].duration_minutes, 60);
}

#[test]
fn stint_rows_are_sorted_by_their_readings() {
    let day = day_with_one_stint_and_one_open();
    let rows = build_stint_lines_at(&day, &vec![t(15, 0)], &vec![t(18, 0)], &vec![t(8, 30)]);
    assert_eq!(rows[0].start, t(8, 30));
    assert_eq!(rows[1].start, t(15, 0));
}

#[test]
fn anomaly_input_carries_the_given_readings() {
    let day = classify(&[punch(1, NINE, PunchKind::End)], NINE + 60);
    let a = to_anomalies_at(&day, &vec![t(9, 0)]);
    assert_eq!(a.open_stint_count, 0);
    assert_eq!(a.orphaned_end_times, vec![t(9, 0)]);
}

#[test]
fn punch_listing_reads_each_punch_from_its_own_reading() {
    let rows = vec![punch(1, NINE, PunchKind::Start), punch(2, NINE + 3600, PunchKind::End)];
    let lines = punch_list_lines_at(&rows, &vec![t(9, 5), t(17, 40)]);
    assert_eq!(lines, vec!["1  start 09:05".to_string(), "2  end 17:40".to_string()]);
}

#[test]
fn end_of_day_is_now_plus_the_gap_and_shows_its_reading() {
    assert_eq!(eod_instant(NINE, 90), NINE + 5400);
    let week = WeekId::new(2026, 7, "test").unwrap();
    let acct = WeekAccounting { week, target: 2400, carry_in: 0, worked: 1000, fulfillment: 1000, owed: 1400, carry_out: -1400 };
    let hint = daily_target_hint(&acct, &thursday());
    assert_eq!(hint.required_minutes, 1920);
    assert_eq!(hint.gap_minutes, 920);
    let day = day_with_one_stint_and_one_open();
    let rd = LocalReadings {
        completed_starts: vec![t(10, 0)],
        completed_ends: vec![t(13, 0)],
        open_starts: vec![t(14, 0)],
        orphans: vec![],
        eod: t(21, 20),
    };
    let notes: Vec<Note> = vec![];
    let view = status_view_at(&thursday(), &thursday(), NINE + 5 * 3600, &day, &acct, &notes, &rd);
    assert_eq!(view.eod, Some(EodState::At(t(21, 20))));
    assert_eq!(view.stints[0].start, t(10, 0));
    assert_eq!(view.day_total_minutes, 180);
}
