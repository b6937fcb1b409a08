//! Reading schedules persisted as system job-scheduler property-list
//! files.
//!
//! One file per tool, named after it, holds the trigger time and the
//! invocation environment. The library decides the file names and reads
//! the records out of raw file bytes; opening, writing and deleting the
//! files is left to the caller. Parsing the property-list format itself
//! is delegated to the `plist` crate behind one trusted wrapper whose
//! result — a pure function of the bytes — is named by
//! `spec_plist_time_of`, so that what a reader returns can be tied to
//! what the bytes store.

use vstd::prelude::*;
use crate::clock::format_hhmm;
use crate::clock::spec_hhmm_string;
use crate::schedule::Tool;
use crate::text::decimal_string;
use crate::text::escape_xml;
use crate::text::spec_decimal;
use crate::text::spec_escape_xml;

verus! {

/// The `Hour` and `Minute` entries of the `StartCalendarInterval`
/// dictionary of a property-list document, or `None` when the bytes are
/// not a property list or lack those entries. The value is a function of
/// the bytes alone; this names it so that contracts can speak of it.
pub uninterp spec fn spec_plist_time_of(bytes: Seq<u8>) -> Option<(i64, i64)>;

/// Relies on plist::Value::from_reader (XML or binary form) and its
/// accessors as_dictionary, Dictionary::get and as_signed_integer: reads
/// the trigger time stored in a property-list document, `None` when any
/// step of the path to it is missing. Deterministic in the bytes.
#[verifier::external_body]
fn plist_calendar_time(bytes: &[u8]) -> (r: Option<(i64, i64)>)
    ensures
        r == spec_plist_time_of(bytes@),
{
    let value = plist::Value::from_reader(std::io::Cursor::new(bytes)).ok()?;
    let cal = value.as_dictionary()?.get("StartCalendarInterval")?.as_dictionary()?;
    let hour = cal.get("Hour")?.as_signed_integer()?;
    let minute = cal.get("Minute")?.as_signed_integer()?;
    Some((hour, minute))
}

/// Relies on dirs::config_dir: the platform's per-user configuration
/// directory. Depends on the environment; nothing is promised of the
/// value, and `None` stands for an environment that defines none.
#[verifier::external_body]
fn config_base_dir() -> (r: Option<String>) {
    dirs::config_dir().map(|p| p.to_string_lossy().into_owned())
}

/// Relies on chrono::Local::now and DateTime::to_rfc3339: the current
/// local wall-clock instant rendered in RFC 3339 form. Depends on the
/// clock and the time zone; nothing is promised of the value.
#[verifier::external_body]
fn now_rfc3339_local() -> (r: String) {
    chrono::Local::now().to_rfc3339()
}

/// Relies on std::path::Path::exists: whether the path names an entity
/// that exists on the file system right now. Depends on the file system;
/// nothing is promised of the value.
#[verifier::external_body]
fn path_exists(p: &str) -> (r: bool) {
    std::path::Path::new(p).exists()
}

/// The launchd-level description of one scheduled invocation: which tool,
/// at which time of day, where and with which arguments.
#[derive(Clone, Debug)]
pub struct LaunchdConfig {
    pub tool: String,
    pub hour: u32,
    pub minute: u32,
    pub target_directory: String,
    pub command_args: String,
}

impl LaunchdConfig {
    /// A config is well formed when its tool is one of the supported
    /// names and its trigger time is a valid time of day.
    pub open spec fn wf(self) -> bool {
        &&& (self.tool@ == Tool::Opus.spec_name() || self.tool@ == Tool::Codex.spec_name()
            || self.tool@ == Tool::Gemini.spec_name())
        &&& self.hour < 24
        &&& self.minute < 60
    }
}

/// One schedule as read back from its persisted file.
#[derive(Clone, Debug)]
pub struct RegisteredSchedule {
    pub tool: String,
    pub execution_time: String,
    pub created_at: String,
}

/// The configuration directory name the scheduler keeps its files under.
pub open spec fn spec_config_dir_name() -> Seq<char> {
    "tauri-cli-scheduler"@
}

/// The file name of a tool's persisted schedule.
pub open spec fn spec_plist_file_name(t: Tool) -> Seq<char> {
    "com.shoma.tauri-cli-scheduler."@ + t.spec_name() + ".plist"@
}

/// Build the file name of a tool's persisted schedule.
pub fn plist_file_name(tool: Tool) -> (r: String)
    ensures
        r@ =~= spec_plist_file_name(tool),
{
    let mut s = String::from_str("com.shoma.tauri-cli-scheduler.");
    s.append(tool.name());
    s.append(".plist");
    s
}

/// The full path of a tool's persisted schedule: the scheduler's
/// directory under the per-user configuration directory, then the
/// tool's file. Fails when the environment defines no configuration
/// directory.
pub fn get_plist_path(tool: Tool) -> (r: Result<String, String>)
    ensures
        r matches Ok(p) ==> exists|base: Seq<char>|
            p@ == base + "/tauri-cli-scheduler/"@ + spec_plist_file_name(tool),
        r matches Err(m) ==> m@ == "Could not determine config directory"@,
{
    match config_base_dir() {
        None => Err(String::from_str("Could not determine config directory")),
        Some(base) => {
            let ghost base_view = base@;
            let mut p = base;
            p.append("/tauri-cli-scheduler/");
            p.append(plist_file_name(tool).as_str());
            proof {
                assert(p@ == base_view + "/tauri-cli-scheduler/"@ + spec_plist_file_name(tool));
            }
            Ok(p)
        },
    }
}

/// Whether a schedule file for the tool exists right now. The answer
/// comes from the file system; an unavailable configuration directory is
/// the only error.
pub fn is_tool_scheduled(tool: Tool) -> (r: Result<bool, String>)
    ensures
        r matches Err(m) ==> m@ == "Could not determine config directory"@,
{
    let path = get_plist_path(tool)?;
    Ok(path_exists(path.as_str()))
}

/// The scheduler job label of a tool.
pub open spec fn spec_job_label(t: Tool) -> Seq<char> {
    "com.shoma.tauri-cli-scheduler."@ + t.spec_name()
}

/// One top-level key/string pair of the document.
pub open spec fn spec_plist_kv(key: Seq<char>, value: Seq<char>) -> Seq<char> {
    "\t<key>"@ + key + "</key>\n\t<string>"@ + value + "</string>\n"@
}

/// One key/string pair nested one level down.
pub open spec fn spec_plist_nested_kv(key: Seq<char>, value: Seq<char>) -> Seq<char> {
    "\t\t<key>"@ + key + "</key>\n\t\t<string>"@ + value + "</string>\n"@
}

/// The environment-variable name prefix of a tool, upper case.
pub open spec fn spec_env_prefix(t: Tool) -> Seq<char> {
    match t {
        Tool::Opus => "OPUS"@,
        Tool::Codex => "CODEX"@,
        Tool::Gemini => "GEMINI"@,
    }
}

/// The fixed option string a tool's scheduled run is given.
pub open spec fn spec_tool_options(t: Tool) -> Seq<char> {
    match t {
        Tool::Opus => "--model opus"@,
        Tool::Codex => "--model gpt-5.2-codex"@,
        Tool::Gemini => ""@,
    }
}

/// The whole property-list document persisted for one scheduled
/// invocation: the job label, the trigger time, the interpreter and
/// script to run, the invocation environment, and the log paths, in
/// that order, with every interpolated string XML-escaped.
pub open spec fn spec_plist_document(
    t: Tool,
    hour: int,
    minute: int,
    script_path: Seq<char>,
    target_directory: Seq<char>,
    command_args: Seq<char>,
    stdout_path: Seq<char>,
    stderr_path: Seq<char>,
) -> Seq<char> {
    "<?xml version=\"1.0\" encoding=\"UTF-8\"?>\n<!DOCTYPE plist PUBLIC \"-//Apple//DTD PLIST 1.0//EN\" \"http://www.apple.com/DTDs/PropertyList-1.0.dtd\">\n<plist version=\"1.0\">\n<dict>\n"@
        + spec_plist_kv("Label"@, spec_job_label(t))
        + "\t<key>StartCalendarInterval</key>\n\t<dict>\n\t\t<key>Hour</key>\n\t\t<integer>"@
        + spec_decimal(hour) + "</integer>\n\t\t<key>Minute</key>\n\t\t<integer>"@ + spec_decimal(
        minute,
    ) + "</integer>\n\t</dict>\n\t<key>ProgramArguments</key>\n\t<array>\n\t\t<string>/bin/bash</string>\n\t\t<string>"@
        + spec_escape_xml(script_path)
        + "</string>\n\t</array>\n\t<key>EnvironmentVariables</key>\n\t<dict>\n"@
        + spec_plist_nested_kv(spec_env_prefix(t) + "_COMMAND"@, spec_escape_xml(command_args))
        + spec_plist_nested_kv(spec_env_prefix(t) + "_OPTIONS"@, spec_tool_options(t))
        + spec_plist_nested_kv("TARGET_DIRECTORY"@, spec_escape_xml(target_directory))
        + spec_plist_nested_kv("AUTO_RETRY"@, "false"@) + spec_plist_nested_kv(
        "TOOL"@,
        t.spec_name(),
    ) + "\t</dict>\n"@ + spec_plist_kv("StandardOutPath"@, spec_escape_xml(stdout_path))
        + spec_plist_kv("StandardErrorPath"@, spec_escape_xml(stderr_path)) + "</dict>\n</plist>\n"@
}

/// Append one top-level key/string pair to the document being built.
fn append_kv(s: &mut String, key: &str, value: &str)
    ensures
        final(s)@ == old(s)@ + spec_plist_kv(key@, value@),
{
    let ghost before = s@;
    s.append("\t<key>");
    s.append(key);
    s.append("</key>\n\t<string>");
    s.append(value);
    s.append("</string>\n");
    proof {
        assert(s@ =~= before + spec_plist_kv(key@, value@));
    }
}

/// Append one nested key/string pair to the document being built.
fn append_nested_kv(s: &mut String, key: &str, value: &str)
    ensures
        final(s)@ == old(s)@ + spec_plist_nested_kv(key@, value@),
{
    let ghost before = s@;
    s.append("\t\t<key>");
    s.append(key);
    s.append("</key>\n\t\t<string>");
    s.append(value);
    s.append("</string>\n");
    proof {
        assert(s@ =~= before + spec_plist_nested_kv(key@, value@));
    }
}

/// Render the property-list document for one scheduled invocation.
/// Writing it to the tool's file is the caller's part.
#[verifier::rlimit(50)]
pub fn render_launchd_plist(
    config: &LaunchdConfig,
    script_path: &str,
    stdout_path: &str,
    stderr_path: &str,
) -> (r: Result<String, String>)
    ensures
        r matches Ok(doc) ==> config.wf() && exists|t: Tool|
            config.tool@ == t.spec_name() && doc@ =~= spec_plist_document(
                t,
                config.hour as int,
                config.minute as int,
                script_path@,
                config.target_directory@,
                config.command_args@,
                stdout_path@,
                stderr_path@,
            ),
        r is Err <==> !config.wf(),
        !(config.tool@ == Tool::Opus.spec_name() || config.tool@ == Tool::Codex.spec_name()
            || config.tool@ == Tool::Gemini.spec_name()) ==> (r matches Err(m) && m@
            == "unknown tool"@),
        (config.tool@ == Tool::Opus.spec_name() || config.tool@ == Tool::Codex.spec_name()
            || config.tool@ == Tool::Gemini.spec_name()) && !(config.hour < 24 && config.minute
            < 60) ==> (r matches Err(m) && m@ == "trigger time out of range"@),
{
    let tool = match Tool::from_name(config.tool.as_str()) {
        Some(t) => t,
        None => {
            return Err(String::from_str("unknown tool"));
        },
    };
    if !(config.hour < 24 && config.minute < 60) {
        return Err(String::from_str("trigger time out of range"));
    }
    let prefix: &'static str = match tool {
        Tool::Opus => "OPUS",
        Tool::Codex => "CODEX",
        Tool::Gemini => "GEMINI",
    };
    let options: &'static str = match tool {
        Tool::Opus => "--model opus",
        Tool::Codex => "--model gpt-5.2-codex",
        Tool::Gemini => "",
    };
    proof {
        assert(prefix@ == spec_env_prefix(tool));
        assert(options@ == spec_tool_options(tool));
    }
    let mut label = String::from_str("com.shoma.tauri-cli-scheduler.");
    label.append(tool.name());
    let mut cmd_key = prefix.to_owned();
    cmd_key.append("_COMMAND");
    let mut opt_key = prefix.to_owned();
    opt_key.append("_OPTIONS");
    let mut s = String::from_str(
        "<?xml version=\"1.0\" encoding=\"UTF-8\"?>\n<!DOCTYPE plist PUBLIC \"-//Apple//DTD PLIST 1.0//EN\" \"http://www.apple.com/DTDs/PropertyList-1.0.dtd\">\n<plist version=\"1.0\">\n<dict>\n",
    );
    append_kv(&mut s, "Label", label.as_str());
    s.append("\t<key>StartCalendarInterval</key>\n\t<dict>\n\t\t<key>Hour</key>\n\t\t<integer>");
    s.append(decimal_string(config.hour as u64).as_str());
    s.append("</integer>\n\t\t<key>Minute</key>\n\t\t<integer>");
    s.append(decimal_string(config.minute as u64).as_str());
    s.append(
        "</integer>\n\t</dict>\n\t<key>ProgramArguments</key>\n\t<array>\n\t\t<string>/bin/bash</string>\n\t\t<string>",
    );
    s.append(escape_xml(script_path).as_str());
    s.append("</string>\n\t</array>\n\t<key>EnvironmentVariables</key>\n\t<dict>\n");
    append_nested_kv(&mut s, cmd_key.as_str(), escape_xml(config.command_args.as_str()).as_str());
    append_nested_kv(&mut s, opt_key.as_str(), options);
    append_nested_kv(
        &mut s,
        "TARGET_DIRECTORY",
        escape_xml(config.target_directory.as_str()).as_str(),
    );
    append_nested_kv(&mut s, "AUTO_RETRY", "false");
    append_nested_kv(&mut s, "TOOL", tool.name());
    s.append("\t</dict>\n");
    append_kv(&mut s, "StandardOutPath", escape_xml(stdout_path).as_str());
    append_kv(&mut s, "StandardErrorPath", escape_xml(stderr_path).as_str());
    s.append("</dict>\n</plist>\n");
    proof {
        assert(s@ =~= spec_plist_document(
            tool,
            config.hour as int,
            config.minute as int,
            script_path@,
            config.target_directory@,
            config.command_args@,
            stdout_path@,
            stderr_path@,
        ));
    }
    Ok(s)
}

/// Read the persisted schedule of `tool` out of its file's bytes.
///
/// Succeeds exactly when the bytes store a trigger time (the `Hour` and
/// `Minute` of a `StartCalendarInterval` dictionary, as
/// `spec_plist_time_of` names it) that is a valid time of day; a file
/// that is not a property list, lacks the entries, or names an
/// out-of-range time yields `None` (malformed records are skipped,
/// never fatal). On success the execution time is the zero-padded HH:MM
/// form of the stored hour and minute, and `created_at` is the read
/// instant's local RFC 3339 wall-clock text.
pub fn load_plist(tool: Tool, bytes: &[u8]) -> (r: Option<RegisteredSchedule>)
    ensures
        r is Some <==> (spec_plist_time_of(bytes@) matches Some((h, m)) && 0 <= h < 24 && 0 <= m
            < 60),
        r matches Some(rs) ==> {
            let (h, m) = spec_plist_time_of(bytes@).unwrap();
            rs.tool@ == tool.spec_name() && rs.execution_time@ == spec_hhmm_string(
                h as int,
                m as int,
            )
        },
{
    let (hour, minute) = match plist_calendar_time(bytes) {
        Some(t) => t,
        None => {
            return None;
        },
    };
    if !(0 <= hour && hour < 24 && 0 <= minute && minute < 60) {
        return None;
    }
    let execution_time = format_hhmm(hour as u8, minute as u8);
    Some(
        RegisteredSchedule {
            tool: tool.name().to_owned(),
            execution_time,
            created_at: now_rfc3339_local(),
        },
    )
}

} // verus!
