//! The missed-run detector and catch-up planner.
//!
//! Once per process start (and again on a wake signal) the engine loads
//! the registered schedules and the history log, computes each schedule's
//! last due occurrence, and decides per schedule whether a catch-up run is
//! owed. The decisions are pure; the runner that launches tools, appends
//! log records and re-invokes the sweep lives outside the library and
//! follows the plan item by item, so one schedule's failure cannot touch
//! the others' decisions.

use vstd::prelude::*;
use crate::date::MAX_INSTANT;
use crate::guard::ConcurrencyGuard;
use crate::history::HistoryEntry;
use crate::history::latest_timestamp_for;
use crate::recurrence::last_due;
use crate::recurrence::spec_last_due;
use crate::schedule::Schedule;

verus! {

/// The greatest timestamp in `log` among entries carrying `id`, as a
/// specification: `None` when there is none.
pub open spec fn spec_latest_timestamp(log: Seq<HistoryEntry>, id: u64) -> Option<int>
    decreases log.len(),
{
    if log.len() == 0 {
        None
    } else {
        let head = log[0];
        let rest = spec_latest_timestamp(log.drop_first(), id);
        if head.schedule_id != id {
            rest
        } else {
            match rest {
                None => Some(head.timestamp as int),
                Some(t) => Some(
                    if head.timestamp as int > t {
                        head.timestamp as int
                    } else {
                        t
                    },
                ),
            }
        }
    }
}

/// A schedule is missed when it has a last due occurrence and the log
/// holds no entry for it at or after that occurrence: either no entry at
/// all, or only entries from before it.
pub open spec fn spec_missed(s: Schedule, log: Seq<HistoryEntry>, now: int) -> bool {
    match spec_last_due(s, now) {
        None => false,
        Some(due) => match spec_latest_timestamp(log, s.schedule_id) {
            None => true,
            Some(t) => t < due,
        },
    }
}

/// Decide whether schedule `s` is missed at `now`, scanning the log for
/// its most recent entry.
pub fn is_missed(s: &Schedule, log: &Vec<HistoryEntry>, now: i64) -> (r: bool)
    requires
        s.wf(),
        0 <= now <= MAX_INSTANT,
    ensures
        r == spec_missed(*s, log@, now as int),
{
    proof {
        lemma_latest_timestamp_characterised(log@, s.schedule_id);
    }
    match last_due(s, now) {
        None => false,
        Some(due) => match latest_timestamp_for(log, s.schedule_id) {
            None => true,
            Some(t) => t < due,
        },
    }
}

/// What the sweep decides for one schedule.
#[derive(Clone, Copy, PartialEq, Eq, Structural, Debug)]
pub enum CatchupDecision {
    /// The schedule has no due occurrence yet.
    NotDueYet,
    /// The history already covers the last due occurrence.
    UpToDate,
    /// Missed, but the tool is already running: record
    /// `catchup-skipped-running` and move on.
    SkippedRunning,
    /// Missed and the tool is free: record `wake-missed` and run a
    /// catch-up execution exactly once.
    RunCatchup,
}

/// One schedule's entry in the sweep plan.
#[derive(Clone, Copy, PartialEq, Eq, Structural, Debug)]
pub struct SweepItem {
    pub schedule_id: u64,
    pub decision: CatchupDecision,
}

/// The decision for one schedule: missed schedules are run, unless their
/// tool is busy, in which case they are skipped with a record.
pub open spec fn spec_decide(
    s: Schedule,
    log: Seq<HistoryEntry>,
    now: int,
    guard: ConcurrencyGuard,
) -> CatchupDecision {
    if spec_last_due(s, now) is None {
        CatchupDecision::NotDueYet
    } else if !spec_missed(s, log, now) {
        CatchupDecision::UpToDate
    } else if guard.spec_state_of(s.tool).is_running {
        CatchupDecision::SkippedRunning
    } else {
        CatchupDecision::RunCatchup
    }
}

/// Decide the whole sweep: one item per registered schedule, in order,
/// each decided independently of the others.
pub fn plan_sweep(
    schedules: &Vec<Schedule>,
    log: &Vec<HistoryEntry>,
    now: i64,
    guard: &ConcurrencyGuard,
) -> (r: Vec<SweepItem>)
    requires
        forall|i: int| 0 <= i < schedules@.len() ==> (#[trigger] schedules@[i]).wf(),
        0 <= now <= MAX_INSTANT,
    ensures
        r@.len() == schedules@.len(),
        forall|i: int|
            0 <= i < schedules@.len() ==> (#[trigger] r@[i]).schedule_id
                == schedules@[i].schedule_id && r@[i].decision == spec_decide(
                schedules@[i],
                log@,
                now as int,
                *guard,
            ),
{
    let mut plan: Vec<SweepItem> = Vec::new();
    let mut i: usize = 0;
    while i < schedules.len()
        invariant
            i <= schedules@.len(),
            plan@.len() == i,
            forall|k: int| 0 <= k < schedules@.len() ==> (#[trigger] schedules@[k]).wf(),
            0 <= now <= MAX_INSTANT,
            forall|k: int|
                0 <= k < i ==> (#[trigger] plan@[k]).schedule_id == schedules@[k].schedule_id
                    && plan@[k].decision == spec_decide(schedules@[k], log@, now as int, *guard),
        decreases schedules@.len() - i,
    {
        let s = &schedules[i];
        let decision: CatchupDecision = match last_due(s, now) {
            None => CatchupDecision::NotDueYet,
            Some(_) => {
                if !is_missed(s, log, now) {
                    CatchupDecision::UpToDate
                } else if guard.is_running(s.tool) {
                    CatchupDecision::SkippedRunning
                } else {
                    CatchupDecision::RunCatchup
                }
            },
        };
        plan.push(SweepItem { schedule_id: s.schedule_id, decision });
        i = i + 1;
    }
    plan
}

/// `spec_latest_timestamp` is what `latest_timestamp_for` computes: the
/// maximum timestamp over the entries carrying `id`, `None` when there
/// is no such entry.
pub proof fn lemma_latest_timestamp_characterised(log: Seq<HistoryEntry>, id: u64)
    ensures
        spec_latest_timestamp(log, id) is None <==> (forall|j: int|
            0 <= j < log.len() ==> log[j].schedule_id != id),
        spec_latest_timestamp(log, id) matches Some(t) ==> (exists|j: int|
            0 <= j < log.len() && log[j].schedule_id == id && log[j].timestamp == t) && (forall|
            j: int,
        |
            0 <= j < log.len() && log[j].schedule_id == id ==> log[j].timestamp <= t),
    decreases log.len(),
{
    if log.len() > 0 {
        let rest = log.drop_first();
        lemma_latest_timestamp_characterised(rest, id);
        assert forall|j: int| 0 <= j < rest.len() implies #[trigger] rest[j] == log[j + 1] by {}
        if spec_latest_timestamp(log, id) is None {
            assert forall|j: int| 0 <= j < log.len() implies log[j].schedule_id != id by {
                if j >= 1 {
                    assert(rest[j - 1].schedule_id != id);
                }
            }
        } else {
            let t = spec_latest_timestamp(log, id).unwrap();
            if log[0].schedule_id == id && log[0].timestamp == t {
                assert(0 <= 0 < log.len() && log[0].schedule_id == id && log[0].timestamp == t);
            } else {
                assert(spec_latest_timestamp(rest, id) == Some(t));
                let jr = choose|jr: int|
                    0 <= jr < rest.len() && rest[jr].schedule_id == id && rest[jr].timestamp == t;
                assert(log[jr + 1].schedule_id == id && log[jr + 1].timestamp == t);
            }
            assert forall|j: int|
                0 <= j < log.len() && log[j].schedule_id == id implies log[j].timestamp <= t by {
                if j >= 1 {
                    assert(rest[j - 1].schedule_id == id);
                    assert(spec_latest_timestamp(rest, id) is Some);
                    assert(rest[j - 1].timestamp <= spec_latest_timestamp(rest, id).unwrap());
                    assert(spec_latest_timestamp(rest, id).unwrap() <= t);
                }
            }
        }
        if forall|j: int| 0 <= j < log.len() ==> log[j].schedule_id != id {
            assert forall|j: int| 0 <= j < rest.len() implies rest[j].schedule_id != id by {
                assert(rest[j] == log[j + 1]);
            }
            assert(spec_latest_timestamp(rest, id) is None);
            assert(log[0].schedule_id != id);
        }
    }
}

/// Law of missed detection: once the log holds an entry for a schedule
/// whose timestamp is at or after the schedule's last due occurrence at
/// some instant, the schedule is not reported missed at that instant,
/// nor at any earlier one.
pub proof fn lemma_history_settles_missed(
    s: Schedule,
    log: Seq<HistoryEntry>,
    now_prior: int,
    now: int,
    j: int,
)
    requires
        s.wf(),
        0 <= now_prior <= now,
        0 <= j < log.len(),
        log[j].schedule_id == s.schedule_id,
        spec_last_due(s, now) matches Some(due) && log[j].timestamp >= due,
    ensures
        !spec_missed(s, log, now),
        !spec_missed(s, log, now_prior),
{
    lemma_latest_timestamp_characterised(log, s.schedule_id);
    crate::recurrence::lemma_last_due_monotone(s, now_prior, now);
    let latest = spec_latest_timestamp(log, s.schedule_id);
    assert(latest is Some);
    assert(latest.unwrap() >= log[j].timestamp);
}

} // verus!
