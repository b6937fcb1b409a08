//! The user-facing command surface: structured outcomes for
//! registration, update, stop and history queries.
//!
//! Registration and update validate their inputs and always answer with
//! a success flag and a message naming the specific problem — they never
//! fault on bad input. Persisting the accepted schedule, and loading
//! schedules back, is the caller's part.

use vstd::prelude::*;
use crate::date::CalendarDate;
use crate::errors::ValidationIssue;
use crate::guard::ConcurrencyGuard;
use crate::guard::spec_stop_requested;
use crate::history::HistoryEntry;
use crate::schedule::Schedule;
use crate::schedule::ScheduleType;
use crate::schedule::Tool;
use crate::schedule::build_schedule;
use crate::schedule::spec_fields_valid;
use crate::schedule::spec_first_issue;

verus! {

/// How many history entries a history query reports.
pub const HISTORY_QUERY_LIMIT: usize = 10;

/// The structured answer of a user-facing command.
#[derive(Clone, Debug)]
pub struct CommandOutcome {
    pub success: bool,
    pub message: String,
    pub schedule_id: Option<u64>,
}

/// Validate a registration request and build the schedule it describes.
///
/// On valid fields the outcome reports success and carries the new
/// schedule's id, and the schedule itself is returned for persisting; on
/// invalid fields the outcome reports failure with the message naming
/// the first problem found, and no schedule is returned (so nothing gets
/// persisted).
pub fn register_schedule(
    schedule_id: u64,
    tool: Tool,
    execution_time: &str,
    schedule_type: ScheduleType,
    start_date: Option<CalendarDate>,
    interval_days: Option<u32>,
    target_directory: String,
    command_args: String,
    title: String,
) -> (r: (CommandOutcome, Option<Schedule>))
    requires
        start_date is Some ==> start_date.unwrap().wf(),
    ensures
        r.0.success <==> spec_fields_valid(
            execution_time@,
            schedule_type,
            start_date,
            interval_days,
            command_args@,
        ),
        r.1 is Some <==> r.0.success,
        r.0.success ==> r.0.message@ == "schedule registered"@ && r.0.schedule_id == Some(
            schedule_id,
        ),
        !r.0.success ==> r.0.message@ == spec_first_issue(
            execution_time@,
            schedule_type,
            start_date,
            interval_days,
            command_args@,
        ).unwrap().spec_message() && r.0.schedule_id is None,
        r.1 matches Some(s) ==> {
            &&& s.wf()
            &&& s.schedule_id == schedule_id
            &&& s.tool == tool
            &&& s.schedule_type == schedule_type
            &&& s.start_date == start_date
            &&& s.interval_days == interval_days
        },
{
    match build_schedule(
        schedule_id,
        tool,
        execution_time,
        schedule_type,
        start_date,
        interval_days,
        target_directory,
        command_args,
        title,
    ) {
        Ok(s) => {
            let outcome = CommandOutcome {
                success: true,
                message: String::from_str("schedule registered"),
                schedule_id: Some(schedule_id),
            };
            (outcome, Some(s))
        },
        Err(issue) => {
            let outcome = CommandOutcome {
                success: false,
                message: issue.message(),
                schedule_id: None,
            };
            (outcome, None)
        },
    }
}

/// Validate an update of an existing schedule: the same field checks as
/// registration, keeping the schedule's id. The caller overwrites the
/// persisted definition in place only on success.
pub fn update_schedule(
    schedule_id: u64,
    tool: Tool,
    execution_time: &str,
    schedule_type: ScheduleType,
    start_date: Option<CalendarDate>,
    interval_days: Option<u32>,
    target_directory: String,
    command_args: String,
    title: String,
) -> (r: (CommandOutcome, Option<Schedule>))
    requires
        start_date is Some ==> start_date.unwrap().wf(),
    ensures
        r.0.success <==> spec_fields_valid(
            execution_time@,
            schedule_type,
            start_date,
            interval_days,
            command_args@,
        ),
        r.1 is Some <==> r.0.success,
        !r.0.success ==> r.0.message@ == spec_first_issue(
            execution_time@,
            schedule_type,
            start_date,
            interval_days,
            command_args@,
        ).unwrap().spec_message(),
        r.1 matches Some(s) ==> s.wf() && s.schedule_id == schedule_id,
{
    register_schedule(
        schedule_id,
        tool,
        execution_time,
        schedule_type,
        start_date,
        interval_days,
        target_directory,
        command_args,
        title,
    )
}

/// Ask the running execution of a tool to stop. Always a success: a stop
/// of a tool that is not running is a no-op. The flags drop at once; the
/// monitor loop observes them at its next poll.
pub fn stop_tool(guard: &mut ConcurrencyGuard, tool: Tool) -> (r: CommandOutcome)
    ensures
        *final(guard) == old(guard).spec_with_state(tool, spec_stop_requested()),
        r.success,
        r.message@ == "execution stopped"@,
{
    guard.request_stop(tool);
    CommandOutcome {
        success: true,
        message: String::from_str("execution stopped"),
        schedule_id: None,
    }
}

/// The option string a codex invocation is given: the model flag when a
/// model is named, the approval-mode flag for the two non-default modes,
/// and the search flag when search is enabled, separated by single
/// spaces.
pub open spec fn spec_codex_options(model: Seq<char>, approval: Seq<char>, search: bool) -> Seq<
    char,
> {
    let approval_part = if approval == "auto"@ {
        "--approval-mode auto-edit"@
    } else if approval == "full-auto"@ {
        "--full-auto"@
    } else {
        Seq::<char>::empty()
    };
    let with_model = if model.len() > 0 {
        "--model "@ + model
    } else {
        Seq::<char>::empty()
    };
    let with_approval = if approval_part.len() == 0 {
        with_model
    } else if with_model.len() > 0 {
        with_model + " "@ + approval_part
    } else {
        approval_part
    };
    if !search {
        with_approval
    } else if with_approval.len() > 0 {
        with_approval + " "@ + "--search"@
    } else {
        "--search"@
    }
}

/// Assemble the option string of a codex invocation from its model,
/// approval mode ("auto", "full-auto", or the default) and search
/// setting.
pub fn build_codex_options(model: &str, approval_mode: &str, enable_search: bool) -> (r: String)
    ensures
        r@ == spec_codex_options(model@, approval_mode@, enable_search),
{
    proof {
        reveal_strlit("--model ");
        reveal_strlit("--approval-mode auto-edit");
        reveal_strlit("--full-auto");
        reveal_strlit("--search");
        reveal_strlit(" ");
    }
    let approval = approval_mode.to_owned();
    let mut s = String::new();
    if model.unicode_len() > 0 {
        s.append("--model ");
        s.append(model);
    }
    if approval.eq(&String::from_str("auto")) {
        if s.as_str().unicode_len() > 0 {
            s.append(" ");
        }
        s.append("--approval-mode auto-edit");
    } else if approval.eq(&String::from_str("full-auto")) {
        if s.as_str().unicode_len() > 0 {
            s.append(" ");
        }
        s.append("--full-auto");
    }
    if enable_search {
        if s.as_str().unicode_len() > 0 {
            s.append(" ");
        }
        s.append("--search");
    }
    s
}

/// The entries a history query answers with: of the log's entries
/// carrying the schedule's id, in log order, the last up to ten, newest
/// first.
pub open spec fn spec_recent_history(log: Seq<HistoryEntry>, id: u64) -> Seq<HistoryEntry> {
    let own = log.filter(|e: HistoryEntry| e.schedule_id == id);
    let n = if own.len() < 10 {
        own.len() as int
    } else {
        10int
    };
    Seq::new(n as nat, |i: int| own[own.len() - 1 - i])
}

/// Answer a history query: the last up to ten of the schedule's log
/// entries, most recent first (the log is appended in order, so log
/// order is time order).
pub fn recent_history(log: &Vec<HistoryEntry>, id: u64) -> (r: Vec<HistoryEntry>)
    ensures
        r@ == spec_recent_history(log@, id),
{
    let mut own: Vec<HistoryEntry> = Vec::new();
    let mut i: usize = 0;
    while i < log.len()
        invariant
            i <= log@.len(),
            own@ == log@.take(i as int).filter(|e: HistoryEntry| e.schedule_id == id),
        decreases log@.len() - i,
    {
        proof {
            assert(log@.take(i as int + 1).drop_last() =~= log@.take(i as int));
            assert(log@.take(i as int + 1).last() == log@[i as int]);
            reveal(Seq::filter);
        }
        if log[i].schedule_id == id {
            own.push(log[i].clone());
        }
        i = i + 1;
    }
    proof {
        assert(log@.take(log@.len() as int) =~= log@);
    }
    let count: usize = if own.len() < HISTORY_QUERY_LIMIT {
        own.len()
    } else {
        HISTORY_QUERY_LIMIT
    };
    let mut r: Vec<HistoryEntry> = Vec::new();
    let mut j: usize = 0;
    while j < count
        invariant
            j <= count,
            count == if own@.len() < 10 {
                own@.len() as int
            } else {
                10int
            },
            own@ == log@.filter(|e: HistoryEntry| e.schedule_id == id),
            r@.len() == j,
            forall|k: int| 0 <= k < j ==> r@[k] == own@[own@.len() - 1 - k],
        decreases count - j,
    {
        r.push(own[own.len() - 1 - j].clone());
        j = j + 1;
    }
    proof {
        assert(r@ =~= spec_recent_history(log@, id));
    }
    r
}

} // verus!
