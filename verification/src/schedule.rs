//! Schedule definitions: which tool to run, when, and how often.

use vstd::prelude::*;
use crate::clock::ClockTime;
use crate::clock::parse_hhmm;
use crate::clock::spec_valid_hhmm;
use crate::clock::spec_hhmm_hour;
use crate::clock::spec_hhmm_minute;
use crate::date::CalendarDate;
use crate::errors::ValidationIssue;

verus! {

/// The closed set of external tools the engine can drive.
#[derive(Clone, Copy, PartialEq, Eq, Structural, Debug)]
pub enum Tool {
    Opus,
    Codex,
    Gemini,
}

impl Tool {
    /// The tool's lower-case name as it appears in persisted records.
    pub open spec fn spec_name(self) -> Seq<char> {
        match self {
            Tool::Opus => "opus"@,
            Tool::Codex => "codex"@,
            Tool::Gemini => "gemini"@,
        }
    }

    /// Exec form of `spec_name`.
    pub fn name(&self) -> (r: &'static str)
        ensures
            r@ == self.spec_name(),
    {
        match self {
            Tool::Opus => "opus",
            Tool::Codex => "codex",
            Tool::Gemini => "gemini",
        }
    }

    /// Parse a tool name; accepts exactly the three tool names.
    pub fn from_name(s: &str) -> (r: Option<Tool>)
        ensures
            r is Some <==> (s@ == Tool::Opus.spec_name() || s@ == Tool::Codex.spec_name() || s@
                == Tool::Gemini.spec_name()),
            r is Some ==> s@ == r.unwrap().spec_name(),
    {
        let owned = s.to_owned();
        if owned.eq(&String::from_str("opus")) {
            Some(Tool::Opus)
        } else if owned.eq(&String::from_str("codex")) {
            Some(Tool::Codex)
        } else if owned.eq(&String::from_str("gemini")) {
            Some(Tool::Gemini)
        } else {
            None
        }
    }
}

/// The four recurrence kinds.
#[derive(Clone, Copy, PartialEq, Eq, Structural, Debug)]
pub enum ScheduleType {
    Daily,
    Weekly,
    Interval,
    Once,
}

/// A user-defined recurring or one-shot job.
#[derive(Clone, Debug)]
pub struct Schedule {
    /// Opaque, time-derived, unique identifier.
    pub schedule_id: u64,
    pub tool: Tool,
    /// Local time of day at which the schedule fires.
    pub execution_time: ClockTime,
    pub schedule_type: ScheduleType,
    /// Required for weekly (fixes the day of week), interval (anchors the
    /// cycle) and once (the single target date).
    pub start_date: Option<CalendarDate>,
    /// Cycle length in days, required for interval schedules.
    pub interval_days: Option<u32>,
    pub target_directory: String,
    pub command_args: String,
    pub title: String,
}

impl Schedule {
    /// The schedule invariant: the execution time is a valid HH:MM value,
    /// weekly and once carry a start date, and interval carries both a
    /// start date and a positive day interval.
    pub open spec fn wf(self) -> bool {
        &&& self.execution_time.wf()
        &&& (self.start_date is Some ==> self.start_date.unwrap().wf())
        &&& (self.schedule_type is Weekly ==> self.start_date is Some)
        &&& (self.schedule_type is Once ==> self.start_date is Some)
        &&& (self.schedule_type is Interval ==> self.start_date is Some && self.interval_days
            is Some && self.interval_days.unwrap() >= 1)
    }

    /// Day number of the start date.
    pub open spec fn spec_start_day(self) -> int {
        self.start_date.unwrap().spec_day_number()
    }
}

/// True when the raw registration fields describe a well-formed schedule.
pub open spec fn spec_fields_valid(
    execution_time: Seq<char>,
    schedule_type: ScheduleType,
    start_date: Option<CalendarDate>,
    interval_days: Option<u32>,
    command_args: Seq<char>,
) -> bool {
    &&& spec_valid_hhmm(execution_time)
    &&& command_args.len() > 0
    &&& (schedule_type is Weekly || schedule_type is Once || schedule_type is Interval
        ==> start_date is Some)
    &&& (schedule_type is Interval ==> interval_days is Some && interval_days.unwrap() >= 1)
}

/// The first problem validation finds in the raw registration fields,
/// in checking order — the execution time, then the command, then what
/// the schedule type requires — or `None` when the fields are valid.
pub open spec fn spec_first_issue(
    execution_time: Seq<char>,
    schedule_type: ScheduleType,
    start_date: Option<CalendarDate>,
    interval_days: Option<u32>,
    command_args: Seq<char>,
) -> Option<ValidationIssue> {
    if !crate::clock::spec_hhmm_shape(execution_time) {
        Some(ValidationIssue::MalformedTime)
    } else if spec_hhmm_hour(execution_time) >= 24 {
        Some(ValidationIssue::HourOutOfRange)
    } else if spec_hhmm_minute(execution_time) >= 60 {
        Some(ValidationIssue::MinuteOutOfRange)
    } else if command_args.len() == 0 {
        Some(ValidationIssue::EmptyCommand)
    } else if (schedule_type is Weekly || schedule_type is Once || schedule_type is Interval)
        && start_date is None {
        Some(ValidationIssue::MissingStartDate)
    } else if schedule_type is Interval && interval_days is None {
        Some(ValidationIssue::MissingIntervalDays)
    } else if schedule_type is Interval && interval_days.unwrap() == 0 {
        Some(ValidationIssue::ZeroIntervalDays)
    } else {
        None
    }
}

/// Validate raw registration fields and build the schedule they describe.
///
/// Succeeds exactly on valid fields; the error names the first problem
/// found, checking the execution time, then the command, then the fields
/// the schedule type requires.
pub fn build_schedule(
    schedule_id: u64,
    tool: Tool,
    execution_time: &str,
    schedule_type: ScheduleType,
    start_date: Option<CalendarDate>,
    interval_days: Option<u32>,
    target_directory: String,
    command_args: String,
    title: String,
) -> (r: Result<Schedule, ValidationIssue>)
    requires
        start_date is Some ==> start_date.unwrap().wf(),
    ensures
        r is Ok <==> spec_fields_valid(
            execution_time@,
            schedule_type,
            start_date,
            interval_days,
            command_args@,
        ),
        r is Ok ==> {
            let s = r.unwrap();
            &&& s.wf()
            &&& s.schedule_id == schedule_id
            &&& s.tool == tool
            &&& s.execution_time.hour == spec_hhmm_hour(execution_time@)
            &&& s.execution_time.minute == spec_hhmm_minute(execution_time@)
            &&& s.schedule_type == schedule_type
            &&& s.start_date == start_date
            &&& s.interval_days == interval_days
            &&& s.target_directory@ == target_directory@
            &&& s.command_args@ == command_args@
            &&& s.title@ == title@
        },
        r matches Err(e) ==> Some(e) == spec_first_issue(
            execution_time@,
            schedule_type,
            start_date,
            interval_days,
            command_args@,
        ),
{
    let time = match parse_hhmm(execution_time) {
        Ok(t) => t,
        Err(e) => {
            return Err(e);
        },
    };
    if command_args.as_str().unicode_len() == 0 {
        return Err(ValidationIssue::EmptyCommand);
    }
    match schedule_type {
        ScheduleType::Weekly | ScheduleType::Once => {
            if start_date.is_none() {
                return Err(ValidationIssue::MissingStartDate);
            }
        },
        ScheduleType::Interval => {
            if start_date.is_none() {
                return Err(ValidationIssue::MissingStartDate);
            }
            match interval_days {
                None => {
                    return Err(ValidationIssue::MissingIntervalDays);
                },
                Some(k) => {
                    if k == 0 {
                        return Err(ValidationIssue::ZeroIntervalDays);
                    }
                },
            }
        },
        ScheduleType::Daily => {},
    }
    Ok(
        Schedule {
            schedule_id,
            tool,
            execution_time: time,
            schedule_type,
            start_date,
            interval_days,
            target_directory,
            command_args,
            title,
        },
    )
}

} // verus!
