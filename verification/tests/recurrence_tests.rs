use cli_scheduler::clock::ClockTime;
use cli_scheduler::clock::parse_hhmm;
use cli_scheduler::date::CalendarDate;
use cli_scheduler::date::day_to_civil;
use cli_scheduler::date::weekday_of_day;
use cli_scheduler::errors::ValidationIssue;
use cli_scheduler::recurrence::last_due;
use cli_scheduler::recurrence::next_time_occurrence;
use cli_scheduler::schedule::ScheduleType;
use cli_scheduler::schedule::Tool;
use cli_scheduler::schedule::build_schedule;

const DAY: i64 = 86400;

fn schedule(
    schedule_type: ScheduleType,
    time: &str,
    start_date: Option<CalendarDate>,
    interval_days: Option<u32>,
) -> cli_scheduler::schedule::Schedule {
    build_schedule(
        7,
        Tool::Opus,
        time,
        schedule_type,
        start_date,
        interval_days,
        "/tmp".to_string(),
        "run it".to_string(),
        "a title".to_string(),
    )
    .expect("fields should be valid")
}

fn date(y: u16, m: u8, d: u8) -> CalendarDate {
    CalendarDate::new(y, m, d).expect("date should be valid")
}

#[test]
fn day_numbers_match_known_dates() {
    assert_eq!(date(1970, 1, 1).day_number(), 0);
    assert_eq!(date(2024, 1, 1).day_number(), 19723);
    assert_eq!(date(2024, 1, 10).day_number(), 19732);
    assert_eq!(date(2024, 2, 29).day_number(), 19782);
    assert_eq!(date(2000, 3, 1).day_number(), 11017);
}

#[test]
fn weekdays_match_known_dates() {
    // 1970-01-01 was a Thursday; 2024-01-01 was a Monday.
    assert_eq!(weekday_of_day(0), 4);
    assert_eq!(weekday_of_day(date(2024, 1, 1).day_number()), 1);
    assert_eq!(weekday_of_day(date(2024, 1, 7).day_number()), 0);
}

#[test]
fn civil_round_trip() {
    for day in [0u32, 1, 59, 365, 11016, 19723, 19782, 2932896] {
        let d = day_to_civil(day);
        assert_eq!(d.day_number(), day);
    }
    let d = day_to_civil(19782);
    assert_eq!((d.year, d.month, d.day), (2024, 2, 29));
}

#[test]
fn rejected_dates() {
    assert!(CalendarDate::new(1969, 12, 31).is_none());
    assert!(CalendarDate::new(2023, 2, 29).is_none());
    assert!(CalendarDate::new(2024, 13, 1).is_none());
    assert!(CalendarDate::new(2024, 4, 31).is_none());
    assert!(CalendarDate::new(10000, 1, 1).is_none());
}

#[test]
fn daily_last_due_brackets_now() {
    let s = schedule(ScheduleType::Daily, "09:00", None, None);
    // 2024-01-01 09:05 local: the 09:00 occurrence of the same day is due.
    let base = 19723 * DAY;
    let now = base + 9 * 3600 + 300;
    let due = last_due(&s, now).expect("daily schedules are always due");
    assert_eq!(due, base + 9 * 3600);
    // 2024-01-01 08:55: yesterday's occurrence is the last due one.
    let now = base + 8 * 3600 + 55 * 60;
    let due = last_due(&s, now).expect("daily schedules are always due");
    assert_eq!(due, base - DAY + 9 * 3600);
    // The bracket of the daily law: due <= now < due + one day.
    assert!(due <= now && now < due + DAY);
}

#[test]
fn weekly_last_due_keeps_weekday() {
    // Start 2024-01-01 (a Monday) at 10:30.
    let s = schedule(
        ScheduleType::Weekly,
        "10:30",
        Some(date(2024, 1, 1)),
        None,
    );
    // 2024-01-10 (a Wednesday) 08:00: last due is Monday 2024-01-08 10:30.
    let now = 19732 * DAY + 8 * 3600;
    let due = last_due(&s, now).expect("weekly schedules with a start date are always due");
    assert_eq!(due, 19730 * DAY + 10 * 3600 + 30 * 60);
    assert_eq!(weekday_of_day((due / DAY) as u32), 1);
    // 2024-01-08 09:00, before the time of day: falls back a whole week.
    let now = 19730 * DAY + 9 * 3600;
    let due = last_due(&s, now).expect("weekly schedules with a start date are always due");
    assert_eq!(due, 19723 * DAY + 10 * 3600 + 30 * 60);
    assert_eq!(weekday_of_day((due / DAY) as u32), 1);
}

#[test]
fn interval_last_due_stays_on_grid() {
    // intervalDays = 3 anchored at 2024-01-01; execution time 09:00;
    // now = 2024-01-10 08:00. Day 10 is on the grid but its occurrence
    // is still ahead, so the last due one is 2024-01-07 09:00.
    let s = schedule(
        ScheduleType::Interval,
        "09:00",
        Some(date(2024, 1, 1)),
        Some(3),
    );
    let now = 19732 * DAY + 8 * 3600;
    let due = last_due(&s, now).expect("the cycle has started");
    assert_eq!(due, 19729 * DAY + 9 * 3600);
    let days_since_start = due / DAY - 19723;
    assert_eq!(days_since_start % 3, 0);
    assert!(due <= now && now < due + 3 * DAY);
    // With an execution time already past, the same day is the answer.
    let s = schedule(
        ScheduleType::Interval,
        "07:00",
        Some(date(2024, 1, 1)),
        Some(3),
    );
    let due = last_due(&s, now).expect("the cycle has started");
    assert_eq!(due, 19732 * DAY + 7 * 3600);
}

#[test]
fn interval_before_start_has_no_due_occurrence() {
    let s = schedule(
        ScheduleType::Interval,
        "09:00",
        Some(date(2024, 1, 10)),
        Some(3),
    );
    // 2024-01-05: the cycle has not started.
    assert_eq!(last_due(&s, 19727 * DAY + 12 * 3600), None);
    // 2024-01-10 08:00: the first occurrence is later that day.
    assert_eq!(last_due(&s, 19732 * DAY + 8 * 3600), None);
    // 2024-01-10 09:00 exactly: the first occurrence is due.
    assert_eq!(
        last_due(&s, 19732 * DAY + 9 * 3600),
        Some(19732 * DAY + 9 * 3600)
    );
}

#[test]
fn once_is_due_only_after_its_instant() {
    let s = schedule(ScheduleType::Once, "12:00", Some(date(2024, 1, 10)), None);
    assert_eq!(last_due(&s, 19732 * DAY + 11 * 3600), None);
    assert_eq!(
        last_due(&s, 19740 * DAY),
        Some(19732 * DAY + 12 * 3600)
    );
}

#[test]
fn last_due_is_monotone_in_now() {
    let s = schedule(ScheduleType::Daily, "23:59", None, None);
    let mut prev = i64::MIN;
    for k in 0..48 {
        let now = 19723 * DAY + k * 1800;
        let due = last_due(&s, now).expect("daily schedules are always due");
        assert!(due >= prev);
        prev = due;
    }
}

#[test]
fn next_time_occurrence_is_strictly_ahead() {
    let t = ClockTime { hour: 9, minute: 0 };
    let base = 19723 * DAY;
    // Before 09:00: today's occurrence.
    assert_eq!(next_time_occurrence(base + 8 * 3600, &t), base + 9 * 3600);
    // Exactly 09:00: tomorrow's (waiting for a time already reached
    // means waiting a day).
    assert_eq!(next_time_occurrence(base + 9 * 3600, &t), base + DAY + 9 * 3600);
    // After 09:00: tomorrow's.
    assert_eq!(next_time_occurrence(base + 10 * 3600, &t), base + DAY + 9 * 3600);
}

#[test]
fn parse_hhmm_accepts_valid_times() {
    let t = parse_hhmm("09:05").expect("a valid time");
    assert_eq!((t.hour, t.minute), (9, 5));
    let t = parse_hhmm("00:00").expect("a valid time");
    assert_eq!((t.hour, t.minute), (0, 0));
    let t = parse_hhmm("23:59").expect("a valid time");
    assert_eq!((t.hour, t.minute), (23, 59));
}

#[test]
fn parse_hhmm_rejects_bad_times() {
    assert_eq!(parse_hhmm("9:05"), Err(ValidationIssue::MalformedTime));
    assert_eq!(parse_hhmm("0905"), Err(ValidationIssue::MalformedTime));
    assert_eq!(parse_hhmm("ab:cd"), Err(ValidationIssue::MalformedTime));
    assert_eq!(parse_hhmm(""), Err(ValidationIssue::MalformedTime));
    assert_eq!(parse_hhmm("24:00"), Err(ValidationIssue::HourOutOfRange));
    assert_eq!(parse_hhmm("99:00"), Err(ValidationIssue::HourOutOfRange));
    assert_eq!(parse_hhmm("23:60"), Err(ValidationIssue::MinuteOutOfRange));
}
