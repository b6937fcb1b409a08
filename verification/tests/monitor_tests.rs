use cli_scheduler::guard::ConcurrencyGuard;
use cli_scheduler::monitor::MonitorState;
use cli_scheduler::monitor::PollObservation;
use cli_scheduler::monitor::next_retry_instant;
use cli_scheduler::monitor::step;
use cli_scheduler::schedule::Tool;

fn poll(now: i64, activity: bool, rate_limited: bool) -> PollObservation {
    PollObservation { now, cancel_requested: false, activity, rate_limited }
}

fn cancel_poll(now: i64) -> PollObservation {
    PollObservation { now, cancel_requested: true, activity: false, rate_limited: false }
}

/// Drive a monitor from its start state through polls at one-minute
/// cadence, returning every state it passed through.
fn run(started_at: i64, polls: &[(bool, bool)], auto_retry: bool) -> Vec<MonitorState> {
    let mut states = Vec::new();
    let mut st = MonitorState::start(started_at);
    let mut now = started_at;
    for (activity, rate_limited) in polls {
        now += 60;
        st = step(&st, &poll(now, *activity, *rate_limited), auto_retry);
        states.push(st);
    }
    states
}

fn is_completed(st: &MonitorState) -> bool {
    matches!(st, MonitorState::Completed { .. })
}

#[test]
fn completion_after_three_consecutive_absences() {
    // [active, active, gone, gone, gone]: exactly one Completed
    // transition, at the third gone poll.
    let states = run(1000, &[(true, false), (true, false), (false, false), (false, false), (false, false)], true);
    assert_eq!(states.iter().filter(|s| is_completed(s)).count(), 1);
    assert!(!is_completed(&states[3]));
    assert!(is_completed(&states[4]));
    // Elapsed runs from monitor start to the streak's first poll,
    // back-dated one interval: first gone poll at 1180, minus 60.
    match states[4] {
        MonitorState::Completed { elapsed_secs } => assert_eq!(elapsed_secs, 120),
        _ => unreachable!(),
    }
}

#[test]
fn activity_resets_the_absence_streak() {
    // [active, gone, gone, active, gone, gone, gone]: the intervening
    // active poll resets the counter; Completed only after the final
    // three consecutive gones.
    let polls = [
        (true, false),
        (false, false),
        (false, false),
        (true, false),
        (false, false),
        (false, false),
        (false, false),
    ];
    let states = run(1000, &polls, true);
    for st in &states[..6] {
        assert!(!is_completed(st));
    }
    assert!(is_completed(&states[6]));
    assert_eq!(states.iter().filter(|s| is_completed(s)).count(), 1);
}

#[test]
fn absence_before_any_activity_is_not_completion() {
    let states = run(1000, &[(false, false); 5], true);
    for st in &states {
        assert!(matches!(st, MonitorState::Running { .. }));
    }
}

#[test]
fn rate_limit_marker_on_third_gone_poll_defers_completion() {
    let polls = [
        (true, false),
        (false, false),
        (false, false),
        (false, true),
        (false, false),
    ];
    let states = run(1000, &polls, true);
    assert!(!is_completed(&states[3]));
    assert!(is_completed(&states[4]));
}

#[test]
fn three_rate_limited_polls_start_the_wait() {
    let polls = [(true, true), (true, true), (true, true)];
    let states = run(7000, &polls, true);
    assert!(matches!(states[0], MonitorState::Running { .. }));
    assert!(matches!(states[1], MonitorState::Running { .. }));
    match states[2] {
        MonitorState::Waiting { resume_at, .. } => {
            // The third marked poll lands at 7180 (01:59:40); the retry
            // instant is the next one-past-the-hour, 7260 (02:01:00).
            assert_eq!(resume_at, 7260);
        }
        _ => panic!("expected the monitor to wait"),
    }
}

#[test]
fn rate_limit_is_terminal_without_auto_retry() {
    let polls = [(true, true), (true, true), (true, true)];
    let states = run(7000, &polls, false);
    assert!(matches!(states[2], MonitorState::RateLimited));
}

#[test]
fn marker_free_poll_resets_the_rate_count() {
    let polls = [(true, true), (true, true), (true, false), (true, true), (true, true)];
    let states = run(7000, &polls, true);
    for st in &states {
        assert!(matches!(st, MonitorState::Running { .. }));
    }
}

#[test]
fn wait_resumes_at_the_retry_instant() {
    let polls = [(true, true), (true, true), (true, true)];
    let mut st = *run(7000, &polls, true).last().unwrap();
    // Polls before the retry instant keep waiting.
    st = step(&st, &poll(7240, false, false), true);
    assert!(matches!(st, MonitorState::Waiting { .. }));
    st = step(&st, &poll(7259, false, false), true);
    assert!(matches!(st, MonitorState::Waiting { .. }));
    // Reaching it returns to Running (the runner sends the resume cue).
    st = step(&st, &poll(7260, false, false), true);
    match st {
        MonitorState::Running { counters, .. } => assert_eq!(counters.rate_count, 0),
        _ => panic!("expected the monitor to resume"),
    }
}

#[test]
fn stop_mid_wait_cancels_within_one_poll() {
    // A requestStop during the rate-limited wait: the next cadence
    // check transitions to Cancelled, and the running flag is already
    // false.
    let polls = [(true, true), (true, true), (true, true)];
    let st = *run(7000, &polls, true).last().unwrap();
    assert!(matches!(st, MonitorState::Waiting { .. }));

    let mut guard = ConcurrencyGuard::new();
    guard.try_start(Tool::Opus).expect("the tool is free");
    guard.request_stop(Tool::Opus);
    assert!(!guard.is_running(Tool::Opus));

    let st = step(&st, &cancel_poll(7300), true);
    assert!(matches!(st, MonitorState::Cancelled));
}

#[test]
fn cancel_wins_in_running_state_too() {
    let st = MonitorState::start(500);
    let st = step(&st, &cancel_poll(560), true);
    assert!(matches!(st, MonitorState::Cancelled));
}

#[test]
fn terminal_states_do_not_move() {
    for st in [MonitorState::Cancelled, MonitorState::RateLimited, MonitorState::Error] {
        let next = step(&st, &poll(1000, true, true), true);
        assert_eq!(next, st);
    }
}

#[test]
fn retry_instants_are_one_past_the_hour() {
    // Exactly on the hour: the same hour's :01.
    assert_eq!(next_retry_instant(7200), 7260);
    // Within the first minute of the hour: still the same hour's :01.
    assert_eq!(next_retry_instant(7230), 7260);
    // Later in the hour: the next hour's :01.
    assert_eq!(next_retry_instant(9000), 10860);
    assert_eq!(next_retry_instant(7260), 10860);
    assert_eq!(next_retry_instant(0), 60);
}
