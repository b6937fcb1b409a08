use cli_scheduler::commands::register_schedule;
use cli_scheduler::commands::stop_tool;
use cli_scheduler::commands::update_schedule;
use cli_scheduler::date::CalendarDate;
use cli_scheduler::guard::ConcurrencyGuard;
use cli_scheduler::schedule::ScheduleType;
use cli_scheduler::schedule::Tool;

fn register(
    time: &str,
    schedule_type: ScheduleType,
    start_date: Option<CalendarDate>,
    interval_days: Option<u32>,
    command: &str,
) -> (cli_scheduler::commands::CommandOutcome, Option<cli_scheduler::schedule::Schedule>) {
    register_schedule(
        99,
        Tool::Opus,
        time,
        schedule_type,
        start_date,
        interval_days,
        "/tmp".to_string(),
        command.to_string(),
        "a title".to_string(),
    )
}

#[test]
fn weekly_without_start_date_is_refused_and_nothing_persists() {
    // Registering a weekly schedule without a start date answers with
    // success=false and the specific missing-start-date message, and
    // hands back no schedule, so the caller has nothing to persist.
    let (outcome, schedule) = register("09:00", ScheduleType::Weekly, None, None, "run");
    assert!(!outcome.success);
    assert_eq!(outcome.message, "this schedule type requires a start date");
    assert!(outcome.schedule_id.is_none());
    assert!(schedule.is_none());
}

#[test]
fn valid_registration_hands_the_schedule_back() {
    let start = CalendarDate::new(2024, 1, 1).expect("date should be valid");
    let (outcome, schedule) =
        register("09:00", ScheduleType::Interval, Some(start), Some(3), "run");
    assert!(outcome.success);
    assert_eq!(outcome.message, "schedule registered");
    assert_eq!(outcome.schedule_id, Some(99));
    let s = schedule.expect("a valid registration builds a schedule");
    assert_eq!(s.schedule_id, 99);
    assert_eq!(s.interval_days, Some(3));
    assert_eq!((s.execution_time.hour, s.execution_time.minute), (9, 0));
}

#[test]
fn each_validation_failure_names_its_reason() {
    let start = CalendarDate::new(2024, 1, 1).expect("date should be valid");
    let (o, _) = register("0900", ScheduleType::Daily, None, None, "run");
    assert_eq!(o.message, "execution time must have the form HH:MM");
    let (o, _) = register("25:00", ScheduleType::Daily, None, None, "run");
    assert_eq!(o.message, "hour must be between 0 and 23");
    let (o, _) = register("09:61", ScheduleType::Daily, None, None, "run");
    assert_eq!(o.message, "minute must be between 0 and 59");
    let (o, _) = register("09:00", ScheduleType::Daily, None, None, "");
    assert_eq!(o.message, "the command must not be empty");
    let (o, _) = register("09:00", ScheduleType::Once, None, None, "run");
    assert_eq!(o.message, "this schedule type requires a start date");
    let (o, _) = register("09:00", ScheduleType::Interval, Some(start), None, "run");
    assert_eq!(o.message, "an interval schedule requires intervalDays");
    let (o, _) = register("09:00", ScheduleType::Interval, Some(start), Some(0), "run");
    assert_eq!(o.message, "intervalDays must be at least 1");
}

#[test]
fn the_time_is_checked_before_the_required_fields() {
    // A weekly schedule with both a bad time and a missing start date
    // reports the time problem: validation checks the time first.
    let (o, _) = register("9am", ScheduleType::Weekly, None, None, "run");
    assert_eq!(o.message, "execution time must have the form HH:MM");
}

#[test]
fn update_validates_like_registration() {
    let (o, s) = update_schedule(
        12,
        Tool::Codex,
        "10:30",
        ScheduleType::Daily,
        None,
        None,
        "/tmp".to_string(),
        "run".to_string(),
        "t".to_string(),
    );
    assert!(o.success);
    assert_eq!(s.expect("a valid update builds a schedule").schedule_id, 12);
    let (o, s) = update_schedule(
        12,
        Tool::Codex,
        "10:30",
        ScheduleType::Weekly,
        None,
        None,
        "/tmp".to_string(),
        "run".to_string(),
        "t".to_string(),
    );
    assert!(!o.success);
    assert!(s.is_none());
}

#[test]
fn stop_is_always_a_success_and_drops_the_flags() {
    let mut guard = ConcurrencyGuard::new();
    guard.try_start(Tool::Opus).expect("the tool is free");
    let outcome = stop_tool(&mut guard, Tool::Opus);
    assert!(outcome.success);
    assert_eq!(outcome.message, "execution stopped");
    assert!(!guard.is_running(Tool::Opus));
    assert!(guard.cancel_requested(Tool::Opus));
    // Stopping a tool that is not running is a no-op success.
    let outcome = stop_tool(&mut guard, Tool::Gemini);
    assert!(outcome.success);
    assert!(!guard.is_running(Tool::Gemini));
}
