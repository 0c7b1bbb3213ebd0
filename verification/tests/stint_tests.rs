use chrono::{Datelike, NaiveDate, TimeZone, Utc};
use mlm::calendar::Date;
use mlm::stint::{classify, classify_at, Anomaly, DayStints};
use mlm::storage::Punch;
use mlm::storage::PunchKind::{End, Start};

const TEST_DATE: (i32, u32, u32) = (2026, 2, 12);

fn date() -> NaiveDate {
    NaiveDate::from_ymd_opt(TEST_DATE.0, TEST_DATE.1, TEST_DATE.2).unwrap()
}

fn at(hhmm: &str) -> i64 {
    at_on(date(), hhmm)
}

fn at_on(d: NaiveDate, hhmm: &str) -> i64 {
    let (h, m) = hhmm.split_once(':').expect("HH:MM");
    Utc.with_ymd_and_hms(d.year(), d.month(), d.day(), h.parse().unwrap(), m.parse().unwrap(), 0)
        .unwrap()
        .timestamp()
}

fn ours(d: NaiveDate) -> Date {
    Date::from_ymd_opt(d.year(), d.month(), d.day()).unwrap()
}

fn p_on(id: i64, d: NaiveDate, hhmm: &str, kind: mlm::storage::PunchKind) -> Punch {
    Punch { id, at_utc: at_on(d, hhmm), date: ours(d), kind }
}

fn p(id: i64, hhmm: &str, kind: mlm::storage::PunchKind) -> Punch {
    Punch { id, at_utc: at(hhmm), date: ours(date()), kind }
}

fn completed_spans(d: &DayStints) -> Vec<(i64, i64, i64)> {
    d.completed
        .iter()
        .map(|s| (s.start.at_utc, s.end.at_utc, s.minutes))
        .collect()
}

#[test]
fn single_start_is_one_open_stint_not_an_anomaly() {
    let d = classify(&[p(1, "09:00", Start)], at("09:30"));

    assert!(d.completed.is_empty());
    assert_eq!(d.open.len(), 1);
    assert_eq!(d.open[0].start.id, 1);
    assert_eq!(d.open[0].minutes_so_far, 30);
    assert!(d.orphaned_ends.is_empty());
    assert!(!d.has_anomaly());
    assert!(d.anomalies().is_empty());
    assert!(d.is_ongoing());
    assert_eq!(d.completed_minutes(), 0);
}

#[test]
fn ordinary_pair_is_one_completed_stint() {
    let d = classify(&[p(1, "09:00", Start), p(2, "17:00", End)], at("17:45"));

    assert_eq!(completed_spans(&d), vec![(at("09:00"), at("17:00"), 480)]);
    assert!(d.open.is_empty());
    assert!(d.orphaned_ends.is_empty());
    assert!(!d.has_anomaly());
    assert!(!d.is_ongoing());
    assert_eq!(d.completed_minutes(), 480);
}

#[test]
fn out_of_order_entry_pairs_by_time_not_entry_order() {
    let d = classify(
        &[
            p(1, "09:00", Start),
            p(2, "14:00", Start),
            p(3, "18:00", End),
            p(4, "13:00", End),
        ],
        at("19:00"),
    );

    assert_eq!(
        completed_spans(&d),
        vec![
            (at("09:00"), at("13:00"), 240),
            (at("14:00"), at("18:00"), 240),
        ]
    );
    assert!(d.open.is_empty());
    assert!(d.orphaned_ends.is_empty());
    assert!(!d.has_anomaly());
    assert_eq!(d.completed_minutes(), 480);
}

#[test]
fn entry_order_does_not_change_result() {
    let d = classify(
        &[
            p(1, "13:00", End),
            p(2, "09:00", Start),
            p(3, "18:00", End),
            p(4, "14:00", Start),
        ],
        at("19:00"),
    );

    assert_eq!(
        completed_spans(&d),
        vec![
            (at("09:00"), at("13:00"), 240),
            (at("14:00"), at("18:00"), 240),
        ]
    );
    assert!(d.open.is_empty());
    assert!(d.orphaned_ends.is_empty());
    assert_eq!(d.completed_minutes(), 480);
}

#[test]
fn same_instant_pair_is_a_legal_zero_length_stint() {
    let d = classify(&[p(1, "09:00", Start), p(2, "09:00", End)], at("17:45"));

    assert_eq!(completed_spans(&d), vec![(at("09:00"), at("09:00"), 0)]);
    assert!(d.open.is_empty());
    assert!(d.orphaned_ends.is_empty());
    assert!(!d.has_anomaly());
    assert_eq!(d.completed_minutes(), 0);
}

#[test]
fn same_instant_pair_still_pairs_when_end_entered_first() {
    let d = classify(&[p(1, "09:00", End), p(2, "09:00", Start)], at("17:45"));

    assert_eq!(completed_spans(&d), vec![(at("09:00"), at("09:00"), 0)]);
    assert!(d.open.is_empty());
    assert!(d.orphaned_ends.is_empty());
    assert!(!d.has_anomaly());
    assert_eq!(d.completed_minutes(), 0);
}

#[test]
fn tied_end_and_start_closes_earlier_open_start() {
    let d = classify(
        &[
            p(1, "08:00", Start),
            p(2, "09:00", End),
            p(3, "09:00", Start),
        ],
        at("09:30"),
    );

    assert_eq!(completed_spans(&d), vec![(at("08:00"), at("09:00"), 60)]);
    assert_eq!(d.open.len(), 1);
    assert_eq!(d.open[0].start.id, 3);
    assert_eq!(d.open[0].start.at_utc, at("09:00"));
    assert!(d.orphaned_ends.is_empty());
    assert!(!d.has_anomaly());
}

#[test]
fn tied_group_two_ends_one_start_nothing_open_before() {
    let d = classify(
        &[p(1, "09:00", End), p(2, "09:00", End), p(3, "09:00", Start)],
        at("09:30"),
    );

    assert_eq!(d.completed.len(), 1);
    assert_eq!(d.completed[0].start.id, 3);
    assert_eq!(d.completed[0].end.id, 1);
    assert_eq!(d.completed[0].minutes, 0);
    assert!(d.open.is_empty());
    assert_eq!(d.orphaned_ends.len(), 1);
    assert_eq!(d.orphaned_ends[0].punch.id, 2);
    assert!(d.has_anomaly());
}

#[test]
fn open_stint_duration_is_measured_against_supplied_now() {
    let punches = [
        p(1, "09:00", Start),
        p(2, "13:00", End),
        p(3, "17:30", Start),
    ];
    let d = classify(&punches, at("17:45"));

    assert_eq!(completed_spans(&d), vec![(at("09:00"), at("13:00"), 240)]);
    assert_eq!(d.open.len(), 1);
    assert_eq!(d.open[0].minutes_so_far, 15);
    assert_eq!(d.completed_minutes(), 240);
    assert!(d.is_ongoing());
    assert!(!d.has_anomaly());
}

#[test]
fn open_stint_duration_changes_only_with_now() {
    let punches = [
        p(1, "09:00", Start),
        p(2, "13:00", End),
        p(3, "17:30", Start),
    ];
    let early = classify(&punches, at("17:45"));
    let late = classify(&punches, at("18:45"));

    assert_eq!(early.open[0].minutes_so_far, 15);
    assert_eq!(late.open[0].minutes_so_far, 75);
    assert_eq!(early.completed, late.completed);
    assert_eq!(early.completed_minutes(), late.completed_minutes());
}

#[test]
fn open_stint_in_the_future_clamps_to_zero_minutes() {
    let d = classify(&[p(1, "23:00", Start)], at("09:00"));

    assert_eq!(d.open.len(), 1);
    assert_eq!(d.open[0].minutes_so_far, 0);
}

#[test]
fn two_dangling_starts_are_two_open_stints_plus_multi_open_anomaly() {
    let d = classify(&[p(1, "09:00", Start), p(2, "11:00", Start)], at("12:00"));

    assert!(d.completed.is_empty());
    assert_eq!(
        d.open
            .iter()
            .map(|o| (o.start.at_utc, o.minutes_so_far))
            .collect::<Vec<_>>(),
        vec![(at("09:00"), 180), (at("11:00"), 60)]
    );
    assert!(d.orphaned_ends.is_empty());
    assert!(d.has_anomaly());
    assert_eq!(
        d.anomalies(),
        vec![Anomaly::MultipleOpenStints { count: 2 }]
    );
    assert_eq!(d.completed_minutes(), 0);
}

#[test]
fn three_dangling_starts_report_count_three() {
    let d = classify(
        &[
            p(1, "09:00", Start),
            p(2, "10:00", Start),
            p(3, "11:00", Start),
        ],
        at("12:00"),
    );

    assert_eq!(d.open.len(), 3);
    assert_eq!(
        d.anomalies(),
        vec![Anomaly::MultipleOpenStints { count: 3 }]
    );
}

#[test]
fn mixed_completed_and_multi_open() {
    let d = classify(
        &[
            p(1, "08:00", Start),
            p(2, "09:00", End),
            p(3, "10:00", Start),
            p(4, "11:00", Start),
        ],
        at("12:00"),
    );

    assert_eq!(completed_spans(&d), vec![(at("08:00"), at("09:00"), 60)]);
    assert_eq!(d.open.len(), 2);
    assert!(d.has_anomaly());
    assert_eq!(d.completed_minutes(), 60);
}

#[test]
fn orphaned_end_produces_anomaly_and_no_stint() {
    let d = classify(&[p(1, "18:00", End)], at("18:30"));

    assert!(d.completed.is_empty());
    assert!(d.open.is_empty());
    assert_eq!(d.orphaned_ends.len(), 1);
    assert_eq!(d.orphaned_ends[0].punch.at_utc, at("18:00"));
    assert!(d.has_anomaly());
    assert_eq!(
        d.anomalies(),
        vec![Anomaly::OrphanedEnd {
            punch: p(1, "18:00", End)
        }]
    );
    assert_eq!(d.completed_minutes(), 0);
    assert!(!d.is_ongoing());
}

#[test]
fn two_orphaned_ends_are_never_coalesced() {
    let d = classify(&[p(1, "12:00", End), p(2, "18:00", End)], at("19:00"));

    assert_eq!(d.orphaned_ends.len(), 2);
    assert_eq!(
        d.anomalies(),
        vec![
            Anomaly::OrphanedEnd {
                punch: p(1, "12:00", End)
            },
            Anomaly::OrphanedEnd {
                punch: p(2, "18:00", End)
            },
        ]
    );
    assert_eq!(d.completed_minutes(), 0);
}

#[test]
fn orphaned_end_before_a_clean_pair() {
    let d = classify(
        &[p(1, "08:00", End), p(2, "09:00", Start), p(3, "10:00", End)],
        at("11:00"),
    );

    assert_eq!(
        d.orphaned_ends
            .iter()
            .map(|o| o.punch.at_utc)
            .collect::<Vec<_>>(),
        vec![at("08:00")]
    );
    assert_eq!(completed_spans(&d), vec![(at("09:00"), at("10:00"), 60)]);
    assert!(d.has_anomaly());
    assert_eq!(d.completed_minutes(), 60);
}

#[test]
fn orphan_and_multi_open_emit_both_anomalies_in_order() {
    let d = classify(
        &[
            p(1, "08:00", End),
            p(2, "09:00", Start),
            p(3, "10:00", Start),
        ],
        at("11:00"),
    );

    assert_eq!(
        d.anomalies(),
        vec![
            Anomaly::MultipleOpenStints { count: 2 },
            Anomaly::OrphanedEnd {
                punch: p(1, "08:00", End)
            },
        ]
    );
}

#[test]
fn nested_entry_pairs_nearest_not_outermost() {
    let d = classify(
        &[
            p(1, "09:00", Start),
            p(2, "10:00", Start),
            p(3, "11:00", End),
            p(4, "12:00", End),
        ],
        at("13:00"),
    );

    assert_eq!(
        completed_spans(&d),
        vec![
            (at("10:00"), at("11:00"), 60),
            (at("09:00"), at("12:00"), 180),
        ]
    );
    assert_eq!(d.completed[0].start.at_utc, at("10:00"));
    assert_eq!(d.completed[0].end.at_utc, at("11:00"));
    assert!(d.open.is_empty());
    assert!(d.orphaned_ends.is_empty());
    assert!(!d.has_anomaly());
    assert_eq!(d.completed_minutes(), 240);
}

#[test]
fn no_punches_produces_empty_classification() {
    let d = classify(&[], at("12:00"));

    assert!(d.completed.is_empty());
    assert!(d.open.is_empty());
    assert!(d.orphaned_ends.is_empty());
    assert!(!d.has_anomaly());
    assert!(d.anomalies().is_empty());
    assert_eq!(d.completed_minutes(), 0);
    assert!(!d.is_ongoing());
}

#[test]
fn cross_midnight_halves_are_two_separate_anomalies() {
    let day1 = NaiveDate::from_ymd_opt(2026, 2, 12).unwrap();
    let day2 = NaiveDate::from_ymd_opt(2026, 2, 13).unwrap();

    let d1 = classify(&[p_on(1, day1, "23:30", Start)], at_on(day2, "00:45"));
    let d2 = classify(&[p_on(2, day2, "00:45", End)], at_on(day2, "01:00"));

    assert_eq!(d1.open.len(), 1);
    assert!(!d1.has_anomaly());
    assert_eq!(d2.orphaned_ends.len(), 1);
    assert!(d2.has_anomaly());
    assert_eq!(d1.completed_minutes() + d2.completed_minutes(), 0);
}

#[test]
fn has_anomaly_matches_anomalies_nonempty() {
    let cases: Vec<Vec<Punch>> = vec![
        vec![],
        vec![p(1, "09:00", Start)],
        vec![p(1, "09:00", Start), p(2, "17:00", End)],
        vec![p(1, "09:00", Start), p(2, "11:00", Start)],
        vec![p(1, "18:00", End)],
        vec![p(1, "09:00", Start), p(2, "09:00", End)],
        vec![
            p(1, "08:00", End),
            p(2, "09:00", Start),
            p(3, "10:00", Start),
        ],
    ];

    for punches in cases {
        let d = classify(&punches, at("19:00"));
        assert_eq!(
            d.has_anomaly(),
            !d.anomalies().is_empty(),
            "mismatch for {punches:?}"
        );
    }
}

#[test]
fn splice_next_direction_closes_open_into_completed() {
    let day1 = date();
    let day2 = day1.succ_opt().unwrap();
    let prev_punches: Vec<Punch> = vec![];
    let punches = vec![p_on(1, day1, "23:30", Start)];
    let next_punches = vec![p_on(2, day2, "00:45", End)];

    let d = classify_at(&prev_punches, &punches, &next_punches, at_on(day2, "01:00"));

    assert_eq!(d.completed.len(), 1);
    assert_eq!(d.completed[0].start.id, 1);
    assert_eq!(d.completed[0].end.id, 2);
    assert_eq!(d.completed[0].minutes, 75);
    assert!(d.open.is_empty());
    assert!(d.orphaned_ends.is_empty());
    assert!(!d.has_anomaly());
}

#[test]
fn splice_prev_direction_clears_orphan_without_adding_stint() {
    let day1 = date();
    let day2 = day1.succ_opt().unwrap();
    let prev_punches = vec![p_on(1, day1, "23:30", Start)];
    let punches = vec![p_on(2, day2, "00:45", End)];
    let next_punches: Vec<Punch> = vec![];

    let d = classify_at(&prev_punches, &punches, &next_punches, at_on(day2, "01:00"));

    assert!(d.completed.is_empty());
    assert!(d.open.is_empty());
    assert!(d.orphaned_ends.is_empty());
    assert!(!d.has_anomaly());
}

#[test]
fn splice_both_directions_fire_independently() {
    let day1 = date();
    let day2 = day1.succ_opt().unwrap();
    let day3 = day2.succ_opt().unwrap();

    let prev_punches = vec![p_on(1, day1, "23:00", Start)];
    let punches = vec![p_on(10, day2, "00:45", End), p_on(11, day2, "23:00", Start)];
    let next_punches = vec![p_on(20, day3, "00:30", End)];

    let d = classify_at(&prev_punches, &punches, &next_punches, at_on(day3, "01:00"));

    assert_eq!(d.completed.len(), 1);
    assert_eq!(d.completed[0].start.id, 11);
    assert_eq!(d.completed[0].end.id, 20);
    assert_eq!(d.completed[0].minutes, 90);
    assert!(d.open.is_empty());
    assert!(d.orphaned_ends.is_empty());
    assert!(!d.has_anomaly());
}

#[test]
fn splice_prev_two_opens_stays_unspliced() {
    let day1 = date();
    let day2 = day1.succ_opt().unwrap();
    let prev_punches = vec![p_on(1, day1, "09:00", Start), p_on(2, day1, "11:00", Start)];
    let punches = vec![p_on(3, day2, "00:45", End)];
    let next_punches: Vec<Punch> = vec![];

    let d = classify_at(&prev_punches, &punches, &next_punches, at_on(day2, "01:00"));

    assert_eq!(d.orphaned_ends.len(), 1);
    assert_eq!(d.orphaned_ends[0].punch.id, 3);
    assert!(d.open.is_empty());
    assert!(d.has_anomaly());
}

#[test]
fn splice_day_two_orphans_stays_unspliced() {
    let day1 = date();
    let day2 = day1.succ_opt().unwrap();
    let prev_punches = vec![p_on(1, day1, "23:00", Start)];
    let punches = vec![p_on(2, day2, "00:45", End), p_on(3, day2, "01:00", End)];
    let next_punches: Vec<Punch> = vec![];

    let d = classify_at(&prev_punches, &punches, &next_punches, at_on(day2, "02:00"));

    assert_eq!(d.orphaned_ends.len(), 2);
    assert!(d.open.is_empty());
    assert!(d.has_anomaly());
}

#[test]
fn splice_orphan_not_first_punch_of_day_stays_unspliced() {
    let day1 = date();
    let day2 = day1.succ_opt().unwrap();
    let prev_punches = vec![p_on(1, day1, "23:00", Start)];
    let punches = vec![
        p_on(2, day2, "09:00", Start),
        p_on(3, day2, "10:00", End),
        p_on(4, day2, "13:00", End),
    ];
    let next_punches: Vec<Punch> = vec![];

    let d = classify_at(&prev_punches, &punches, &next_punches, at_on(day2, "14:00"));

    assert_eq!(d.completed.len(), 1);
    assert_eq!(d.completed[0].start.id, 2);
    assert_eq!(d.completed[0].end.id, 3);
    assert_eq!(d.orphaned_ends.len(), 1);
    assert_eq!(d.orphaned_ends[0].punch.id, 4);
    assert!(d.has_anomaly());
}

#[test]
fn splice_genuine_gap_two_dates_out_no_splice() {
    let day1 = date();
    let day2 = day1.succ_opt().unwrap();
    let prev_punches = vec![p_on(1, day1, "23:00", Start)];
    let punches: Vec<Punch> = vec![];
    let next_punches: Vec<Punch> = vec![];

    let d = classify_at(&prev_punches, &punches, &next_punches, at_on(day2, "12:00"));

    assert!(d.completed.is_empty());
    assert!(d.open.is_empty());
    assert!(d.orphaned_ends.is_empty());
    assert!(!d.has_anomaly());
}

#[test]
fn classify_at_empty_neighbors_matches_classify() {
    let cases: Vec<Vec<Punch>> = vec![
        vec![],
        vec![p(1, "09:00", Start)],
        vec![p(1, "09:00", Start), p(2, "17:00", End)],
        vec![p(1, "09:00", Start), p(2, "11:00", Start)],
        vec![p(1, "18:00", End)],
        vec![p(1, "09:00", Start), p(2, "09:00", End)],
        vec![
            p(1, "08:00", Start),
            p(2, "09:00", End),
            p(3, "09:00", Start),
        ],
        vec![
            p(1, "09:00", Start),
            p(2, "10:00", Start),
            p(3, "11:00", End),
            p(4, "12:00", End),
        ],
    ];

    for punches in cases {
        let direct = classify(&punches, at("19:00"));
        let via_at = classify_at(&[], &punches, &[], at("19:00"));
        assert_eq!(direct, via_at, "mismatch for {punches:?}");
    }
}

#[test]
fn classify_at_empty_punches_bordering_nonempty_prev_no_panic() {
    let prev_punches = vec![p(1, "09:00", Start)];
    let punches: Vec<Punch> = vec![];
    let next_punches: Vec<Punch> = vec![];

    let d = classify_at(&prev_punches, &punches, &next_punches, at("10:00"));

    assert!(d.completed.is_empty());
    assert!(d.open.is_empty());
    assert!(d.orphaned_ends.is_empty());
    assert!(!d.has_anomaly());
}

#[test]
fn classify_at_empty_punches_bordering_nonempty_next_no_panic() {
    let prev_punches: Vec<Punch> = vec![];
    let punches: Vec<Punch> = vec![];
    let next_punches = vec![p(1, "08:00", End)];

    let d = classify_at(&prev_punches, &punches, &next_punches, at("10:00"));

    assert!(d.completed.is_empty());
    assert!(d.open.is_empty());
    assert!(d.orphaned_ends.is_empty());
    assert!(!d.has_anomaly());
}

#[test]
fn tied_end_start_at_next_boundary_never_reaches_orphan_check() {
    let day1 = date();
    let day2 = day1.succ_opt().unwrap();
    let punches = vec![p_on(1, day1, "22:00", Start)];
    let next_punches = vec![
        p_on(10, day2, "00:00", End),
        p_on(11, day2, "00:00", Start),
        p_on(12, day2, "08:00", End),
    ];

    let d = classify_at(&[], &punches, &next_punches, at_on(day2, "09:00"));

    assert_eq!(d.open.len(), 1);
    assert_eq!(d.open[0].start.id, 1);
    assert!(d.completed.is_empty());
}

#[test]
fn tied_group_two_ends_at_next_boundary_multi_orphan_stays_unspliced() {
    let day1 = date();
    let day2 = day1.succ_opt().unwrap();
    let punches = vec![p_on(1, day1, "22:00", Start)];
    let next_punches = vec![
        p_on(10, day2, "00:00", End),
        p_on(11, day2, "00:00", End),
        p_on(12, day2, "08:00", Start),
    ];

    let next_direct = classify(&next_punches, at_on(day2, "09:00"));
    assert_eq!(next_direct.orphaned_ends.len(), 2);

    let d = classify_at(&[], &punches, &next_punches, at_on(day2, "09:00"));

    assert_eq!(d.open.len(), 1);
    assert_eq!(d.open[0].start.id, 1);
    assert!(d.completed.is_empty());
}

#[test]
fn single_end_at_next_first_instant_is_splice_eligible() {
    let day1 = date();
    let day2 = day1.succ_opt().unwrap();
    let punches = vec![p_on(1, day1, "22:00", Start)];
    let next_punches = vec![p_on(10, day2, "00:00", End), p_on(11, day2, "08:00", Start)];

    let d = classify_at(&[], &punches, &next_punches, at_on(day2, "09:00"));

    assert_eq!(d.completed.len(), 1);
    assert_eq!(d.completed[0].start.id, 1);
    assert_eq!(d.completed[0].end.id, 10);
    assert_eq!(d.completed[0].minutes, 120);
    assert!(d.open.is_empty());
    assert!(d.orphaned_ends.is_empty());
    assert!(!d.has_anomaly());
}

#[test]
fn completed_minutes_excludes_open_and_orphans() {
    let d = classify(
        &[
            p(1, "09:00", Start),
            p(2, "10:00", End),
            p(3, "11:00", End),
            p(4, "12:00", Start),
        ],
        at("13:00"),
    );

    assert_eq!(d.completed_minutes(), 60);
    assert_eq!(d.open.len(), 1);
    assert_eq!(d.open[0].minutes_so_far, 60);
    assert_eq!(d.orphaned_ends.len(), 1);
    assert_eq!(d.orphaned_ends[0].punch.at_utc, at("11:00"));
}


#[test]
fn pairing_accounts_for_every_punch() {
    let cases: Vec<Vec<Punch>> = vec![
        vec![],
        vec![p(1, "09:00", Start), p(2, "17:00", End)],
        vec![p(1, "13:00", End), p(2, "09:00", Start), p(3, "18:00", End), p(4, "14:00", Start)],
        vec![p(1, "09:00", End), p(2, "09:00", End), p(3, "09:00", Start)],
        vec![p(1, "08:00", End), p(2, "09:00", Start), p(3, "10:00", Start)],
        vec![p(1, "09:00", Start), p(2, "10:00", Start), p(3, "11:00", End), p(4, "12:00", End), p(5, "12:00", End)],
    ];
    for punches in cases {
        let d = classify(&punches, at("19:00"));
        let starts = punches.iter().filter(|x| x.kind == Start).count();
        let ends = punches.iter().filter(|x| x.kind == End).count();
        assert_eq!(d.completed.len() + d.open.len(), starts, "{punches:?}");
        assert_eq!(d.completed.len() + d.orphaned_ends.len(), ends, "{punches:?}");
    }
}

#[test]
fn every_order_of_the_same_punches_classifies_alike() {
    let base = vec![
        p(1, "09:00", Start),
        p(2, "13:00", End),
        p(3, "14:00", Start),
        p(4, "18:00", End),
        p(5, "18:00", Start),
        p(6, "19:30", End),
    ];
    let reference = classify(&base, at("20:00"));
    let mut order: Vec<usize> = (0..base.len()).collect();
    for round in 0..20 {
        order.rotate_left(1);
        if round % 3 == 0 {
            order.swap(0, 3);
        }
        let shuffled: Vec<Punch> = order.iter().map(|&i| base[i]).collect();
        assert_eq!(classify(&shuffled, at("20:00")), reference, "order {order:?}");
    }
}

#[test]
fn a_stint_across_midnight_counts_once_for_its_start_date() {
    let day1 = date();
    let day2 = day1.succ_opt().unwrap();
    let a = vec![p_on(1, day1, "09:00", Start), p_on(2, day1, "12:00", End), p_on(3, day1, "23:30", Start)];
    let b = vec![p_on(4, day2, "00:45", End), p_on(5, day2, "08:00", Start), p_on(6, day2, "09:00", End)];
    let now = at_on(day2, "12:00");

    let seen_a = classify_at(&[], &a, &b, now);
    let seen_b = classify_at(&a, &b, &[], now);
    let own_a = classify(&a, now);
    let own_b = classify(&b, now);

    assert_eq!(seen_a.completed.len(), own_a.completed.len() + 1);
    assert_eq!(seen_b.orphaned_ends.len() + 1, own_b.orphaned_ends.len());
    assert_eq!(seen_a.completed_minutes(), 180 + 75);
    assert_eq!(seen_b.completed_minutes(), 60);
    assert_eq!(seen_b.completed, classify_at(&[], &b, &[], now).completed);
    assert_eq!(seen_a.completed_minutes() + seen_b.completed_minutes(), 180 + 75 + 60);
}

#[test]
fn pairing_keeps_every_punch_in_its_place_and_in_time_order() {
    let cases: Vec<Vec<Punch>> = vec![
        vec![],
        vec![p(1, "09:00", Start), p(2, "17:00", End)],
        vec![p(1, "13:00", End), p(2, "09:00", Start), p(3, "18:00", End), p(4, "14:00", Start)],
        vec![p(1, "09:00", End), p(2, "09:00", End), p(3, "09:00", Start)],
        vec![p(1, "08:00", End), p(2, "09:00", Start), p(3, "10:00", Start), p(4, "07:00", End)],
        vec![p(1, "09:00", Start), p(2, "10:00", Start), p(3, "11:00", End), p(4, "12:00", End), p(5, "12:00", End)],
    ];
    for punches in cases {
        let d = classify(&punches, at("19:00"));
        let mut seen: Vec<i64> = Vec::new();
        for s in &d.completed {
            assert_eq!(s.start.kind, Start);
            assert_eq!(s.end.kind, End);
            assert!(s.start.at_utc <= s.end.at_utc && s.minutes >= 0);
            seen.push(s.start.id);
            seen.push(s.end.id);
        }
        for o in &d.open {
            assert_eq!(o.start.kind, Start);
            seen.push(o.start.id);
        }
        for e in &d.orphaned_ends {
            assert_eq!(e.punch.kind, End);
            seen.push(e.punch.id);
        }
        assert!(d.open.windows(2).all(|w| w[0].start.at_utc <= w[1].start.at_utc));
        assert!(d.orphaned_ends.windows(2).all(|w| w[0].punch.at_utc <= w[1].punch.at_utc));
        let mut expected: Vec<i64> = punches.iter().map(|x| x.id).collect();
        seen.sort();
        expected.sort();
        assert_eq!(seen, expected, "{punches:?}");
    }
}
