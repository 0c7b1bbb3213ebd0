use mlm::calendar::{Date, Time};
use mlm::date::WeekId;
use mlm::render::status_week_line;
use mlm::status::{render, week_line, DailyTargetHint, EodState, StatusView, StintEnd, StintLine};
use mlm::time::format_minutes;
use mlm::week::WeekAccounting;

fn d(y: i32, m: u32, day: u32) -> Date {
    Date::from_ymd_opt(y, m, day).expect("test fixture is a real date")
}

fn t(h: u32, m: u32) -> Time {
    Time::from_hm_opt(h, m).expect("test fixture is a real time")
}

fn wk(y: i32, w: u32) -> WeekId {
    WeekId::new(y, w, "test").expect("test fixture is a real ISO week")
}

fn today() -> Date {
    d(2026, 2, 12)
}

fn current_week_acct(owed: i64, fulfillment: i64, target: i64) -> WeekAccounting {
    WeekAccounting { week: wk(2026, 7), target, carry_in: 0, worked: fulfillment, fulfillment, owed, carry_out: fulfillment - target }
}

fn closed_week_acct(week: WeekId, owed: i64) -> WeekAccounting {
    WeekAccounting {
        week,
        target: 2400,
        carry_in: 0,
        worked: 2400 - owed,
        fulfillment: 2400 - owed,
        owed,
        carry_out: owed.checked_neg().unwrap_or(0),
    }
}

fn base_view() -> StatusView {
    StatusView {
        header: "Thu 2026-02-12".to_string(),
        day_total_minutes: 0,
        has_open_stint: false,
        daily_target: None,
        weekday_name: None,
        eod: None,
        week_line: week_line(&current_week_acct(645, 1755, 2400), &today()),
        anomaly_lines: vec![],
        stints: vec![],
        notes: vec![],
    }
}

#[test]
fn t5_e11_zero_punches_and_notes_is_exactly_four_lines() {
    let view = base_view();
    let out = render(&view);
    let expected = format!(
        "Thu 2026-02-12\n\nDay total:     00h 00m\n{}\n",
        week_line(&current_week_acct(645, 1755, 2400), &today())
    );
    assert_eq!(out, expected);
    assert_eq!(out.lines().count(), 4);
    assert!(out.ends_with('\n'));
    assert!(!out.ends_with("\n\n"));
}

#[test]
fn t4_f4_note_only_day_omits_stint_section() {
    let mut view = base_view();
    view.notes = vec![
        "fixed migration runner bug".to_string(),
        "started punch pairing tests".to_string(),
    ];
    let out = render(&view);
    assert!(out.contains("Notes:"));
    assert!(out.contains("  - fixed migration runner bug"));
    assert!(out.contains("  - started punch pairing tests"));
    assert!(
        !out.lines().any(|l| l.starts_with("  ") && l.contains('(')),
        "no stint/duration line should render: {out}"
    );
    assert!(!out.contains("\n\n\n"), "no doubled blank line");
}

#[test]
fn t1_f1_single_open_stint_no_completed() {
    let mut view = base_view();
    view.has_open_stint = true;
    view.daily_target = Some(DailyTargetHint {
        required_minutes: 480,
        gap_minutes: 480,
    });
    view.weekday_name = Some("Thursday".to_string());
    view.eod = Some(EodState::At(t(2, 0)));
    view.stints = vec![StintLine {
        start: t(9, 0),
        end: StintEnd::Now,
        duration_minutes: 0,
    }];
    let out = render(&view);
    assert!(out.contains("Day total:     00h 00m (+ ongoing)"));
    assert!(out.contains("  09:00-now    (00h 00m, ongoing)"));
    assert!(!out.contains("[!]"));
    assert!(!out.contains("Notes:"));
}

#[test]
fn t2_f2_ordinary_day_no_eod_line_without_open_stint() {
    let mut view = base_view();
    view.day_total_minutes = 510;
    view.stints = vec![StintLine {
        start: t(9, 0),
        end: StintEnd::At(t(17, 30)),
        duration_minutes: 510,
    }];
    view.daily_target = Some(DailyTargetHint {
        required_minutes: 480,
        gap_minutes: -30,
    });
    view.weekday_name = Some("Thursday".to_string());
    let out = render(&view);
    assert!(
        out.contains(
            "Day total:     08h 30m, 00h 30m over 08h 00m required by end of Thursday"
        )
    );
    assert!(!out.contains("(+ ongoing)"));
    assert!(!out.contains("est. EOD"));
    assert!(!out.contains("target already met"));
    assert!(out.contains("  09:00-17:30  (08h 30m)"));
}

#[test]
fn t3_f3_stint_order_reflects_time_not_entry_order() {
    let mut view = base_view();
    view.day_total_minutes = 480;
    view.stints = vec![
        StintLine {
            start: t(9, 0),
            end: StintEnd::At(t(13, 0)),
            duration_minutes: 240,
        },
        StintLine {
            start: t(14, 0),
            end: StintEnd::At(t(18, 0)),
            duration_minutes: 240,
        },
    ];
    let out = render(&view);
    let idx1 = out.find("09:00-13:00").unwrap();
    let idx2 = out.find("14:00-18:00").unwrap();
    assert!(idx1 < idx2);
    assert!(!out.contains("[!]"));
}

#[test]
fn t6a_f9_open_stint_with_gap_shows_est_eod() {
    let mut view = base_view();
    view.day_total_minutes = 445;
    view.has_open_stint = true;
    view.daily_target = Some(DailyTargetHint {
        required_minutes: 1920,
        gap_minutes: 165,
    });
    view.weekday_name = Some("Thursday".to_string());
    view.eod = Some(EodState::At(t(20, 45)));
    let out = render(&view);
    assert!(out.contains(
        "Day total:     07h 25m (+ ongoing), 02h 45m left to 32h 00m required by end of Thursday, est. EOD 20:45"
    ));
}

#[test]
fn t6b_f9_open_stint_gap_zero_or_negative_is_target_already_met() {
    for gap in [0i64, -20i64] {
        let mut view = base_view();
        view.day_total_minutes = 480 - gap;
        view.has_open_stint = true;
        view.daily_target = Some(DailyTargetHint {
            required_minutes: 480,
            gap_minutes: gap,
        });
        view.weekday_name = Some("Thursday".to_string());
        view.eod = Some(EodState::TargetAlreadyMet);
        let out = render(&view);
        assert!(out.contains(", target already met"), "gap {gap}: {out}");
        assert!(!out.contains("est. EOD"), "gap {gap}: {out}");
        if gap >= 0 {
            assert!(
                out.contains("00h 00m left to 08h 00m required by end of Thursday"),
                "gap {gap}: {out}"
            );
            assert!(!out.contains("over 08h 00m required"), "gap {gap}: {out}");
        } else {
            assert!(
                out.contains(&format!(
                    "{} over 08h 00m required by end of Thursday",
                    format_minutes(-gap)
                )),
                "gap {gap}: {out}"
            );
            assert!(
                !out.contains("left to 08h 00m required"),
                "gap {gap}: {out}"
            );
        }
    }
}

#[test]
fn t6c_f9_no_open_stint_omits_eod_segment_entirely() {
    let mut view = base_view();
    view.day_total_minutes = 480;
    view.has_open_stint = false;
    view.daily_target = Some(DailyTargetHint {
        required_minutes: 480,
        gap_minutes: 0,
    });
    view.weekday_name = Some("Thursday".to_string());
    view.eod = None;
    let out = render(&view);
    assert!(!out.contains("est. EOD"));
    assert!(!out.contains("target already met"));
    assert!(!out.contains("(+ ongoing)"));
    assert!(out.contains("left to 08h 00m required by end of Thursday"));
}

#[test]
fn t7_f10_golden_second_spec_example() {
    let view = StatusView {
        header: "Mon 2026-01-05".to_string(),
        day_total_minutes: 375,
        has_open_stint: false,
        daily_target: None,
        weekday_name: None,
        eod: None,
        week_line: week_line(&closed_week_acct(wk(2026, 2), 100), &today()),
        anomaly_lines: vec![],
        stints: vec![StintLine {
            start: t(8, 30),
            end: StintEnd::At(t(14, 45)),
            duration_minutes: 375,
        }],
        notes: vec![],
    };
    let out = render(&view);
    let expected = "Mon 2026-01-05\n\
         \n\
         Day total:     06h 15m\n\
         Week 2026-02:  Total still owed: 01h 40m\n\
         \n\
         \x20\x2008:30-14:45  (06h 15m)\n";
    assert_eq!(out, expected);
    assert!(!out.contains("daily target"));
    assert!(!out.contains("required by end of"));
    assert!(!out.contains("est. EOD"));
    assert!(!out.contains("target already met"));
    assert!(out.contains("Week 2026-02:"));
    assert!(!out.contains("fulfillment"));
}

#[test]
fn t8_f11_different_day_in_current_week_has_no_daily_target_but_deadline_week_line() {
    let mut view = base_view();
    view.header = "Mon 2026-02-09".to_string();
    let out = render(&view);
    assert!(!out.contains("Monday"));
    assert!(out.contains("left by end of Thursday"));
    assert!(!out.contains("daily target"));
    assert!(!out.contains("required by end of"));
    assert!(!out.contains("est. EOD"));
    assert!(!out.contains("target already met"));
}

#[test]
fn t9_e7_multi_open_anomaly_rendering() {
    let mut view = base_view();
    view.has_open_stint = true;
    view.anomaly_lines = vec!["[!] 3 open stints for this date (unmatched starts)".to_string()];
    view.stints = vec![
        StintLine {
            start: t(9, 0),
            end: StintEnd::Now,
            duration_minutes: 540,
        },
        StintLine {
            start: t(10, 0),
            end: StintEnd::Now,
            duration_minutes: 480,
        },
        StintLine {
            start: t(11, 0),
            end: StintEnd::Now,
            duration_minutes: 420,
        },
    ];
    let out = render(&view);
    assert_eq!(
        out.matches("[!]").count(),
        1,
        "exactly one anomaly line: {out}"
    );
    assert!(out.contains("[!] 3 open stints for this date (unmatched starts)"));
    let idx_anomaly = out.find("[!]").unwrap();
    let idx_first_stint = out.find("09:00-now").unwrap();
    assert!(idx_anomaly < idx_first_stint);
    for s in ["09:00-now", "10:00-now", "11:00-now"] {
        assert!(out.contains(s), "{s} missing: {out}");
    }
    assert_eq!(
        view.day_total_minutes, 0,
        "open time never affects day total"
    );
}

#[test]
fn t10_e8_orphaned_ends_produce_no_stint_lines() {
    let mut view = base_view();
    view.day_total_minutes = 480;
    view.anomaly_lines = vec![
        "[!] orphaned end at 18:00 (no matching start)".to_string(),
        "[!] orphaned end at 19:30 (no matching start)".to_string(),
    ];
    view.stints = vec![StintLine {
        start: t(9, 0),
        end: StintEnd::At(t(17, 0)),
        duration_minutes: 480,
    }];
    let out = render(&view);
    assert_eq!(out.matches("[!]").count(), 2);
    assert!(out.contains("orphaned end at 18:00"));
    assert!(out.contains("orphaned end at 19:30"));
    assert_eq!(out.matches('(').count(), 4);
    assert!(out.contains("09:00-17:00  (08h 00m)"));
}

#[test]
fn t11_golden_full_first_spec_example() {
    let acct = current_week_acct(645, 1755, 2400);
    let view = StatusView {
        header: "Thu 2026-02-12".to_string(),
        day_total_minutes: 445,
        has_open_stint: true,
        daily_target: Some(DailyTargetHint {
            required_minutes: 1920,
            gap_minutes: 165,
        }),
        weekday_name: Some("Thursday".to_string()),
        eod: Some(EodState::At(t(20, 45))),
        week_line: week_line(&acct, &today()),
        anomaly_lines: vec![],
        stints: vec![
            StintLine {
                start: t(9, 0),
                end: StintEnd::At(t(13, 0)),
                duration_minutes: 240,
            },
            StintLine {
                start: t(14, 5),
                end: StintEnd::At(t(17, 30)),
                duration_minutes: 205,
            },
            StintLine {
                start: t(17, 45),
                end: StintEnd::Now,
                duration_minutes: 15,
            },
        ],
        notes: vec![
            "fixed migration runner bug".to_string(),
            "started punch pairing tests".to_string(),
        ],
    };
    let out = render(&view);
    let expected = "Thu 2026-02-12\n\
        \n\
        Day total:     07h 25m (+ ongoing), 02h 45m left to 32h 00m required by end of Thursday, est. EOD 20:45\n\
        Week 2026-07:  10h 45m left by end of Thursday (fulfillment 29h 15m / target 40h 00m)\n\
        \n\
        \x20\x2009:00-13:00  (04h 00m)\n\
        \x20\x2014:05-17:30  (03h 25m)\n\
        \x20\x2017:45-now    (00h 15m, ongoing)\n\
        \n\
        Notes:\n\
        \x20\x20- fixed migration runner bug\n\
        \x20\x20- started punch pairing tests\n";
    assert_eq!(out, expected);
}

fn assert_durations_well_formed(s: &str) {
    let words: Vec<&str> = s.split_whitespace().collect();
    for i in 0..words.len() {
        let w = words[i];
        let unsigned = w.strip_prefix('-').unwrap_or(w);
        let Some(hour_digits) = unsigned.strip_suffix('h') else {
            continue;
        };
        if hour_digits.is_empty() || !hour_digits.bytes().all(|b| b.is_ascii_digit()) {
            continue;
        }
        assert!(
            hour_digits.len() >= 2,
            "hour part not zero-padded: {w:?} in {s:?}"
        );
        let next = words
            .get(i + 1)
            .unwrap_or_else(|| panic!("hour token {w:?} has no following minute token"));
        let minute_run: String = next
            .chars()
            .take_while(|c| c.is_ascii_digit() || *c == 'm')
            .collect();
        assert!(
            minute_run.ends_with('m'),
            "minute token malformed: {next:?} in {s:?}"
        );
        let minute_digits = &minute_run[..minute_run.len() - 1];
        assert_eq!(
            minute_digits.len(),
            2,
            "minute part not exactly 2 digits: {next:?} in {s:?}"
        );
        assert!(minute_digits.bytes().all(|b| b.is_ascii_digit()));
    }
}

#[test]
fn t12_every_duration_matches_the_canonical_format() {
    let acct = current_week_acct(645, 1755, 2400);
    let t11 = render(&StatusView {
        header: "Thu 2026-02-12".to_string(),
        day_total_minutes: 445,
        has_open_stint: true,
        daily_target: Some(DailyTargetHint {
            required_minutes: 1920,
            gap_minutes: 165,
        }),
        weekday_name: Some("Thursday".to_string()),
        eod: Some(EodState::At(t(20, 45))),
        week_line: week_line(&acct, &today()),
        anomaly_lines: vec![],
        stints: vec![StintLine {
            start: t(9, 0),
            end: StintEnd::At(t(13, 0)),
            duration_minutes: 240,
        }],
        notes: vec![],
    });
    let t7 = render(&StatusView {
        header: "Mon 2026-01-05".to_string(),
        day_total_minutes: 375,
        has_open_stint: false,
        daily_target: None,
        weekday_name: None,
        eod: None,
        week_line: week_line(&closed_week_acct(wk(2026, 2), 100), &today()),
        anomaly_lines: vec![],
        stints: vec![StintLine {
            start: t(8, 30),
            end: StintEnd::At(t(14, 45)),
            duration_minutes: 375,
        }],
        notes: vec![],
    });
    let mut t6b_view = base_view();
    t6b_view.day_total_minutes = 500;
    t6b_view.has_open_stint = true;
    t6b_view.daily_target = Some(DailyTargetHint {
        required_minutes: 480,
        gap_minutes: -20,
    });
    t6b_view.weekday_name = Some("Thursday".to_string());
    t6b_view.eod = Some(EodState::TargetAlreadyMet);
    let t6b = render(&t6b_view);

    for out in [t11, t7, t6b] {
        assert_durations_well_formed(&out);
    }
}

#[test]
fn t13_plain_ascii_output_and_non_ascii_notes_pass_through() {
    let acct = current_week_acct(645, 1755, 2400);
    let ascii_view = StatusView {
        header: "Thu 2026-02-12".to_string(),
        day_total_minutes: 445,
        has_open_stint: true,
        daily_target: Some(DailyTargetHint {
            required_minutes: 1920,
            gap_minutes: 165,
        }),
        weekday_name: Some("Thursday".to_string()),
        eod: Some(EodState::At(t(20, 45))),
        week_line: week_line(&acct, &today()),
        anomaly_lines: vec!["[!] orphaned end at 18:00 (no matching start)".to_string()],
        stints: vec![StintLine {
            start: t(9, 0),
            end: StintEnd::At(t(13, 0)),
            duration_minutes: 240,
        }],
        notes: vec!["ascii only note".to_string()],
    };
    let out = render(&ascii_view);
    assert!(
        out.bytes()
            .all(|b| b == b'\n' || (0x20..=0x7E).contains(&b)),
        "non-plain-ASCII byte found: {out:?}"
    );

    let mut non_ascii_view = ascii_view;
    non_ascii_view.notes = vec!["caf\u{e9} r\u{e9}sum\u{e9}".to_string()];
    let out2 = render(&non_ascii_view);
    assert!(
        out2.contains("caf\u{e9} r\u{e9}sum\u{e9}"),
        "note body must pass through unmangled: {out2:?}"
    );
}

#[test]
fn render_never_produces_a_trailing_or_doubled_blank_line() {
    for view in [base_view(), {
        let mut v = base_view();
        v.notes = vec!["only a note".to_string()];
        v
    }] {
        let out = render(&view);
        assert!(!out.contains("\n\n\n"));
        assert!(out.ends_with('\n') && !out.ends_with("\n\n"));
    }
}

#[test]
fn week_line_matches_status_week_line_field_for_field() {
    let acct = current_week_acct(645, 1755, 2400);
    let want = status_week_line(&acct.week, acct.owed, acct.fulfillment, acct.target, acct.carry_in, &today());
    assert_eq!(week_line(&acct, &today()), want);
}
