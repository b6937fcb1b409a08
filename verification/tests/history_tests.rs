use cli_scheduler::commands::recent_history;
use cli_scheduler::history::HistoryEntry;
use cli_scheduler::history::HistoryStatus;
use cli_scheduler::history::history_line;
use cli_scheduler::history::parse_history_line;
use cli_scheduler::history::rfc3339_utc;
use cli_scheduler::schedule::Tool;

fn entry(ts: i64, id: u64, status: &str) -> HistoryEntry {
    HistoryEntry { timestamp: ts, schedule_id: id, tool: Tool::Opus, status: status.to_string() }
}

#[test]
fn rfc3339_renders_known_instants() {
    assert_eq!(rfc3339_utc(0), "1970-01-01T00:00:00Z");
    assert_eq!(rfc3339_utc(1704618000), "2024-01-07T09:00:00Z");
    assert_eq!(rfc3339_utc(951782400 + 3661), "2000-02-29T01:01:01Z");
    assert_eq!(rfc3339_utc(253402300799), "9999-12-31T23:59:59Z");
}

#[test]
fn status_tokens_match_the_vocabulary() {
    assert_eq!(HistoryStatus::Started.token(), "started");
    assert_eq!(HistoryStatus::CatchupStarted.token(), "catchup-started");
    assert_eq!(HistoryStatus::CatchupSuccess.token(), "catchup-success");
    assert_eq!(HistoryStatus::CatchupFailure.token(), "catchup-failure");
    assert_eq!(
        HistoryStatus::CatchupSkippedRunning.token(),
        "catchup-skipped-running"
    );
    assert_eq!(HistoryStatus::WakeMissed.token(), "wake-missed");
    assert_eq!(HistoryStatus::RateLimitDetected.token(), "rate-limit-detected");
    assert_eq!(HistoryStatus::Cancelled.token(), "cancelled");
    assert_eq!(
        HistoryStatus::CompletedIn { minutes: 5, seconds: 30 }.token(),
        "completed_in_5m30s"
    );
    assert_eq!(
        HistoryStatus::CompletedIn { minutes: 0, seconds: 0 }.token(),
        "completed_in_0m0s"
    );
    assert_eq!(
        HistoryStatus::CompletedIn { minutes: 125, seconds: 7 }.token(),
        "completed_in_125m7s"
    );
}

#[test]
fn history_lines_are_flat_json_records() {
    let e = entry(0, 42, "started");
    assert_eq!(
        history_line(&e),
        "{\"timestamp\":\"1970-01-01T00:00:00Z\",\"scheduleId\":\"42\",\"tool\":\"opus\",\"status\":\"started\"}"
    );
}

#[test]
fn history_lines_escape_the_status() {
    let e = entry(0, 1, "odd \"status\"\nwith breaks\\");
    let line = history_line(&e);
    assert_eq!(
        line,
        "{\"timestamp\":\"1970-01-01T00:00:00Z\",\"scheduleId\":\"1\",\"tool\":\"opus\",\"status\":\"odd \\\"status\\\"\\nwith breaks\\\\\"}"
    );
    // The record stays one line whatever the status held.
    assert!(!line.contains('\n'));
}

#[test]
fn history_lines_round_trip() {
    let samples = [
        entry(0, 42, "started"),
        entry(1704618000, 1, "catchup-success"),
        entry(253402300799, u64::MAX, "completed_in_5m30s"),
        entry(86399, 7, "odd \"status\"\nwith breaks\\ and \r returns"),
        entry(1704618000, 9, ""),
    ];
    for e in samples {
        let line = history_line(&e);
        let parsed = parse_history_line(&line).expect("a written line parses back");
        assert_eq!(parsed.timestamp, e.timestamp);
        assert_eq!(parsed.schedule_id, e.schedule_id);
        assert_eq!(parsed.tool, e.tool);
        assert_eq!(parsed.status, e.status);
    }
    let e = HistoryEntry {
        timestamp: 60,
        schedule_id: 3,
        tool: Tool::Gemini,
        status: "cancelled".to_string(),
    };
    let parsed = parse_history_line(&history_line(&e)).expect("a written line parses back");
    assert_eq!(parsed.tool, Tool::Gemini);
}

#[test]
fn malformed_history_lines_are_rejected() {
    assert!(parse_history_line("").is_none());
    assert!(parse_history_line("not a record").is_none());
    // A truncated record.
    assert!(parse_history_line("{\"timestamp\":\"1970-01-01T00:00:00Z\",\"scheduleId\":\"42\"").is_none());
    // An impossible date.
    assert!(parse_history_line(
        "{\"timestamp\":\"2023-02-29T00:00:00Z\",\"scheduleId\":\"1\",\"tool\":\"opus\",\"status\":\"started\"}"
    )
    .is_none());
    // An unknown tool.
    assert!(parse_history_line(
        "{\"timestamp\":\"1970-01-01T00:00:00Z\",\"scheduleId\":\"1\",\"tool\":\"vim\",\"status\":\"started\"}"
    )
    .is_none());
    // A leading zero in the id is not something the writer produces.
    assert!(parse_history_line(
        "{\"timestamp\":\"1970-01-01T00:00:00Z\",\"scheduleId\":\"01\",\"tool\":\"opus\",\"status\":\"started\"}"
    )
    .is_none());
    // Trailing text after the record.
    assert!(parse_history_line(
        "{\"timestamp\":\"1970-01-01T00:00:00Z\",\"scheduleId\":\"1\",\"tool\":\"opus\",\"status\":\"started\"}x"
    )
    .is_none());
}

#[test]
fn parsed_lines_come_from_the_writer_grammar() {
    let line = "{\"timestamp\":\"2024-01-07T09:00:00Z\",\"scheduleId\":\"123\",\"tool\":\"codex\",\"status\":\"rate-limit-detected\"}";
    let e = parse_history_line(line).expect("a well-formed line parses");
    assert_eq!(e.timestamp, 1704618000);
    assert_eq!(e.schedule_id, 123);
    assert_eq!(e.tool, Tool::Codex);
    assert_eq!(e.status, "rate-limit-detected");
    // Rendering the parsed entry gives the line back.
    assert_eq!(history_line(&e), line);
}

#[test]
fn recent_history_reports_the_last_ten_newest_first() {
    let mut log = Vec::new();
    for k in 0..15 {
        log.push(entry(1000 + k, 1, "started"));
        log.push(entry(2000 + k, 2, "started"));
    }
    let r = recent_history(&log, 1);
    assert_eq!(r.len(), 10);
    for (i, e) in r.iter().enumerate() {
        assert_eq!(e.schedule_id, 1);
        assert_eq!(e.timestamp, 1014 - i as i64);
    }
    let r = recent_history(&log, 3);
    assert!(r.is_empty());
    let r = recent_history(&log[..4].to_vec(), 1);
    assert_eq!(r.len(), 2);
    assert_eq!(r[0].timestamp, 1001);
    assert_eq!(r[1].timestamp, 1000);
}
