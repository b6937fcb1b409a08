use cli_scheduler::catchup::CatchupDecision;
use cli_scheduler::catchup::is_missed;
use cli_scheduler::catchup::plan_sweep;
use cli_scheduler::date::CalendarDate;
use cli_scheduler::guard::ConcurrencyGuard;
use cli_scheduler::history::HistoryEntry;
use cli_scheduler::history::HistoryStatus;
use cli_scheduler::history::latest_timestamp_for;
use cli_scheduler::history::make_entry;
use cli_scheduler::recurrence::last_due;
use cli_scheduler::schedule::Schedule;
use cli_scheduler::schedule::ScheduleType;
use cli_scheduler::schedule::Tool;
use cli_scheduler::schedule::build_schedule;

const DAY: i64 = 86400;

fn daily(id: u64, tool: Tool, time: &str) -> Schedule {
    build_schedule(
        id,
        tool,
        time,
        ScheduleType::Daily,
        None,
        None,
        "/tmp".to_string(),
        "run it".to_string(),
        "a title".to_string(),
    )
    .expect("fields should be valid")
}

fn entry(ts: i64, id: u64, tool: Tool, status: &str) -> HistoryEntry {
    HistoryEntry { timestamp: ts, schedule_id: id, tool, status: status.to_string() }
}

#[test]
fn missed_daily_schedule_gets_one_catchup() {
    // Scenario: schedule daily 09:00, no history, now 09:05 the same
    // day: reported missed, planned to run exactly once, and the
    // records around the attempt carry the catch-up vocabulary.
    let s = daily(1, Tool::Opus, "09:00");
    let now = 19723 * DAY + 9 * 3600 + 300;
    let log: Vec<HistoryEntry> = Vec::new();
    assert!(is_missed(&s, &log, now));

    let guard = ConcurrencyGuard::new();
    let plan = plan_sweep(&vec![s.clone()], &log, now, &guard);
    assert_eq!(plan.len(), 1);
    assert_eq!(plan[0].schedule_id, 1);
    assert_eq!(plan[0].decision, CatchupDecision::RunCatchup);

    let missed = make_entry(now, 1, Tool::Opus, HistoryStatus::WakeMissed);
    assert_eq!(missed.status, "wake-missed");
    let started = make_entry(now, 1, Tool::Opus, HistoryStatus::CatchupStarted);
    assert_eq!(started.status, "catchup-started");
    let done = make_entry(now + 60, 1, Tool::Opus, HistoryStatus::CatchupSuccess);
    assert_eq!(done.status, "catchup-success");
    let failed = make_entry(now + 60, 1, Tool::Opus, HistoryStatus::CatchupFailure);
    assert_eq!(failed.status, "catchup-failure");
}

#[test]
fn history_at_or_after_the_due_instant_settles_missed() {
    // Once an entry with timestamp >= lastDue(now) exists, the schedule
    // is not reported missed at now, nor at any earlier instant.
    let s = daily(1, Tool::Opus, "09:00");
    let now = 19723 * DAY + 9 * 3600 + 300;
    let due = last_due(&s, now).expect("daily schedules are always due");
    let log = vec![entry(due, 1, Tool::Opus, "started")];
    assert!(!is_missed(&s, &log, now));
    for earlier in [now - 1, due, 19723 * DAY, 19722 * DAY + 12 * 3600] {
        assert!(!is_missed(&s, &log, earlier));
    }
    // An entry from before the due instant does not cover it.
    let stale = vec![entry(due - 1, 1, Tool::Opus, "started")];
    assert!(is_missed(&s, &stale, now));
}

#[test]
fn rerunning_the_sweep_after_catchup_is_a_no_op() {
    let s = daily(1, Tool::Opus, "09:00");
    let now = 19723 * DAY + 9 * 3600 + 300;
    let guard = ConcurrencyGuard::new();
    let log = vec![
        entry(now, 1, Tool::Opus, "catchup-started"),
        entry(now + 30, 1, Tool::Opus, "catchup-success"),
    ];
    let plan = plan_sweep(&vec![s], &log, now + 60, &guard);
    assert_eq!(plan[0].decision, CatchupDecision::UpToDate);
}

#[test]
fn busy_tool_is_skipped_and_isolated_from_the_rest() {
    let a = daily(1, Tool::Opus, "09:00");
    let b = daily(2, Tool::Codex, "09:00");
    let now = 19723 * DAY + 9 * 3600 + 300;
    let log: Vec<HistoryEntry> = Vec::new();
    let mut guard = ConcurrencyGuard::new();
    guard.try_start(Tool::Opus).expect("the tool is free");
    let plan = plan_sweep(&vec![a, b], &log, now, &guard);
    assert_eq!(plan[0].decision, CatchupDecision::SkippedRunning);
    assert_eq!(plan[1].decision, CatchupDecision::RunCatchup);
}

#[test]
fn not_yet_due_schedules_are_left_alone() {
    let s = build_schedule(
        3,
        Tool::Gemini,
        "09:00",
        ScheduleType::Once,
        Some(CalendarDate::new(2024, 1, 10).expect("date should be valid")),
        None,
        "/tmp".to_string(),
        "run it".to_string(),
        "a title".to_string(),
    )
    .expect("fields should be valid");
    let now = 19723 * DAY;
    let guard = ConcurrencyGuard::new();
    let plan = plan_sweep(&vec![s], &Vec::new(), now, &guard);
    assert_eq!(plan[0].decision, CatchupDecision::NotDueYet);
}

#[test]
fn latest_timestamp_is_the_maximum_per_id() {
    let log = vec![
        entry(100, 1, Tool::Opus, "started"),
        entry(300, 2, Tool::Codex, "started"),
        entry(250, 1, Tool::Opus, "completed_in_2m0s"),
        entry(120, 1, Tool::Opus, "cancelled"),
    ];
    assert_eq!(latest_timestamp_for(&log, 1), Some(250));
    assert_eq!(latest_timestamp_for(&log, 2), Some(300));
    assert_eq!(latest_timestamp_for(&log, 9), None);
    assert_eq!(latest_timestamp_for(&Vec::new(), 1), None);
}
