use cli_scheduler::commands::build_codex_options;
use cli_scheduler::clock::format_hhmm;
use cli_scheduler::date::MAX_INSTANT;
use cli_scheduler::launchd::get_plist_path;
use cli_scheduler::launchd::LaunchdConfig;
use cli_scheduler::launchd::load_plist;
use cli_scheduler::launchd::plist_file_name;
use cli_scheduler::launchd::render_launchd_plist;
use cli_scheduler::wallclock::current_instant;
use cli_scheduler::schedule::Tool;
use cli_scheduler::text::decimal_string;
use cli_scheduler::text::escape_applescript_string;
use cli_scheduler::text::escape_xml;

fn config(tool: &str, hour: u32, minute: u32) -> LaunchdConfig {
    LaunchdConfig {
        tool: tool.to_string(),
        hour,
        minute,
        target_directory: "/work/dir".to_string(),
        command_args: "do the thing".to_string(),
    }
}

#[test]
fn rendered_plist_loads_back() {
    // Round trip through the real property-list parser: the rendered
    // document must hand back the trigger time it was built from.
    let doc = render_launchd_plist(&config("opus", 9, 5), "/scripts/run-opus.sh", "/logs/out", "/logs/err")
        .expect("a well-formed config renders");
    let rs = load_plist(Tool::Opus, doc.as_bytes()).expect("the rendered document parses");
    assert_eq!(rs.tool, "opus");
    assert_eq!(rs.execution_time, "09:05");
}

#[test]
fn rendered_plist_contains_the_environment() {
    let doc = render_launchd_plist(&config("codex", 23, 59), "/s.sh", "/o", "/e")
        .expect("a well-formed config renders");
    assert!(doc.contains("<key>Label</key>\n\t<string>com.shoma.tauri-cli-scheduler.codex</string>"));
    assert!(doc.contains("<key>Hour</key>\n\t\t<integer>23</integer>"));
    assert!(doc.contains("<key>Minute</key>\n\t\t<integer>59</integer>"));
    assert!(doc.contains("<key>CODEX_COMMAND</key>\n\t\t<string>do the thing</string>"));
    assert!(doc.contains("<key>CODEX_OPTIONS</key>\n\t\t<string>--model gpt-5.2-codex</string>"));
    assert!(doc.contains("<key>TARGET_DIRECTORY</key>\n\t\t<string>/work/dir</string>"));
    assert!(doc.contains("<key>AUTO_RETRY</key>\n\t\t<string>false</string>"));
    assert!(doc.contains("<key>TOOL</key>\n\t\t<string>codex</string>"));
}

#[test]
fn rendered_plist_escapes_xml_characters() {
    let mut c = config("gemini", 1, 2);
    c.command_args = "a < b && c > \"d\"".to_string();
    let doc = render_launchd_plist(&c, "/s.sh", "/o", "/e").expect("a well-formed config renders");
    assert!(doc.contains("<key>GEMINI_COMMAND</key>\n\t\t<string>a &lt; b &amp;&amp; c &gt; &quot;d&quot;</string>"));
    // The escaped document still parses and hands the time back.
    let rs = load_plist(Tool::Gemini, doc.as_bytes()).expect("the rendered document parses");
    assert_eq!(rs.execution_time, "01:02");
}

#[test]
fn bad_configs_are_refused() {
    assert!(render_launchd_plist(&config("vim", 9, 0), "/s", "/o", "/e").is_err());
    assert!(render_launchd_plist(&config("opus", 24, 0), "/s", "/o", "/e").is_err());
    assert!(render_launchd_plist(&config("opus", 0, 60), "/s", "/o", "/e").is_err());
}

#[test]
fn unreadable_plist_bytes_are_skipped() {
    assert!(load_plist(Tool::Opus, b"not a plist at all").is_none());
    assert!(load_plist(Tool::Opus, b"").is_none());
    // A valid plist without the calendar interval is skipped too.
    let doc = "<?xml version=\"1.0\" encoding=\"UTF-8\"?>\n<plist version=\"1.0\">\n<dict>\n\t<key>Label</key>\n\t<string>x</string>\n</dict>\n</plist>\n";
    assert!(load_plist(Tool::Opus, doc.as_bytes()).is_none());
    // An out-of-range stored time is skipped rather than reported.
    let doc = "<?xml version=\"1.0\" encoding=\"UTF-8\"?>\n<plist version=\"1.0\">\n<dict>\n\t<key>StartCalendarInterval</key>\n\t<dict>\n\t\t<key>Hour</key>\n\t\t<integer>25</integer>\n\t\t<key>Minute</key>\n\t\t<integer>0</integer>\n\t</dict>\n</dict>\n</plist>\n";
    assert!(load_plist(Tool::Opus, doc.as_bytes()).is_none());
}

#[test]
fn plist_file_names_follow_the_tool() {
    assert_eq!(plist_file_name(Tool::Opus), "com.shoma.tauri-cli-scheduler.opus.plist");
    assert_eq!(plist_file_name(Tool::Codex), "com.shoma.tauri-cli-scheduler.codex.plist");
    assert_eq!(plist_file_name(Tool::Gemini), "com.shoma.tauri-cli-scheduler.gemini.plist");
}

#[test]
fn plist_paths_end_with_the_tool_file() {
    // Which base directory the environment offers varies; the path's
    // tail is the library's own naming.
    if let Ok(p) = get_plist_path(Tool::Codex) {
        assert!(p.ends_with("/tauri-cli-scheduler/com.shoma.tauri-cli-scheduler.codex.plist"));
    }
}

#[test]
fn the_clock_reading_is_in_range() {
    let now = current_instant();
    assert!(0 <= now && now <= MAX_INSTANT);
}

#[test]
fn applescript_escaping_covers_the_four_characters() {
    assert_eq!(escape_applescript_string("plain text"), "plain text");
    assert_eq!(escape_applescript_string("a\\b"), "a\\\\b");
    assert_eq!(escape_applescript_string("say \"hi\""), "say \\\"hi\\\"");
    assert_eq!(escape_applescript_string("line\nbreak\rhere"), "line\\nbreak\\rhere");
    assert_eq!(escape_applescript_string(""), "");
}

#[test]
fn xml_escaping_covers_the_five_characters() {
    assert_eq!(escape_xml("a&b<c>d\"e'f"), "a&amp;b&lt;c&gt;d&quot;e&apos;f");
    assert_eq!(escape_xml("plain"), "plain");
}

#[test]
fn codex_options_are_assembled_in_order() {
    assert_eq!(build_codex_options("gpt", "auto", true), "--model gpt --approval-mode auto-edit --search");
    assert_eq!(build_codex_options("gpt", "full-auto", false), "--model gpt --full-auto");
    assert_eq!(build_codex_options("", "auto", false), "--approval-mode auto-edit");
    assert_eq!(build_codex_options("", "suggest", true), "--search");
    assert_eq!(build_codex_options("", "suggest", false), "");
    assert_eq!(build_codex_options("gpt", "suggest", false), "--model gpt");
}

#[test]
fn number_rendering_is_plain_decimal() {
    assert_eq!(decimal_string(0), "0");
    assert_eq!(decimal_string(7), "7");
    assert_eq!(decimal_string(125), "125");
    assert_eq!(decimal_string(u64::MAX), "18446744073709551615");
    assert_eq!(format_hhmm(9, 5), "09:05");
    assert_eq!(format_hhmm(23, 59), "23:59");
    assert_eq!(format_hhmm(0, 0), "00:00");
}
