use cli_scheduler::errors::EngineError;
use cli_scheduler::guard::ConcurrencyGuard;
use cli_scheduler::schedule::Tool;

#[test]
fn try_start_twice_fails_the_second_time() {
    let mut guard = ConcurrencyGuard::new();
    assert!(guard.try_start(Tool::Opus).is_ok());
    assert!(matches!(
        guard.try_start(Tool::Opus),
        Err(EngineError::AlreadyRunning)
    ));
    assert!(guard.is_running(Tool::Opus));
}

#[test]
fn try_start_succeeds_again_after_finish() {
    let mut guard = ConcurrencyGuard::new();
    assert!(guard.try_start(Tool::Codex).is_ok());
    guard.finish(Tool::Codex);
    assert!(!guard.is_running(Tool::Codex));
    assert!(guard.try_start(Tool::Codex).is_ok());
}

#[test]
fn try_start_succeeds_again_after_request_stop() {
    let mut guard = ConcurrencyGuard::new();
    assert!(guard.try_start(Tool::Gemini).is_ok());
    guard.request_stop(Tool::Gemini);
    assert!(!guard.is_running(Tool::Gemini));
    assert!(guard.cancel_requested(Tool::Gemini));
    // Starting anew clears the stale cancel request.
    assert!(guard.try_start(Tool::Gemini).is_ok());
    assert!(!guard.cancel_requested(Tool::Gemini));
}

#[test]
fn tools_are_independent() {
    let mut guard = ConcurrencyGuard::new();
    assert!(guard.try_start(Tool::Opus).is_ok());
    assert!(guard.try_start(Tool::Codex).is_ok());
    assert_eq!(guard.status(), (true, true, false));
    guard.finish(Tool::Opus);
    assert_eq!(guard.status(), (false, true, false));
}

#[test]
fn finish_keeps_the_cancel_flag() {
    let mut guard = ConcurrencyGuard::new();
    assert!(guard.try_start(Tool::Opus).is_ok());
    guard.request_stop(Tool::Opus);
    guard.finish(Tool::Opus);
    assert!(guard.cancel_requested(Tool::Opus));
    assert!(!guard.is_running(Tool::Opus));
}
