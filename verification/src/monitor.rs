//! The execution monitor: a polling state machine that drives one
//! execution to completion.
//!
//! The monitor watches the external tool's visible output at a fixed poll
//! cadence of one poll per minute. Each poll is condensed into a
//! `PollObservation`; `step` is the pure transition function from the
//! current `MonitorState` and one observation to the next state. Noisy
//! signals are debounced: completion is accepted only after three
//! consecutive polls whose in-progress marker is gone, a rate limit only
//! after three consecutive polls that carry the rate-limit marker. A
//! cancel request wins over everything and is checked first on every poll.
//!
//! The runner that sleeps, scrapes output and sends the resume cue lives
//! outside the library; it feeds observations in and performs what the
//! state asks: keep polling on `Running` and `Waiting`, send the resume
//! cue on the transition out of `Waiting`, stop on a terminal state.

use vstd::prelude::*;
use vstd::arithmetic::div_mod::lemma_fundamental_div_mod;
use vstd::arithmetic::div_mod::lemma_fundamental_div_mod_converse;
use crate::date::MAX_INSTANT;

verus! {

/// Consecutive confirming polls a noisy signal needs before it is
/// believed.
pub const DEBOUNCE_POLLS: u8 = 3;

/// Seconds between two polls.
pub const POLL_INTERVAL_SECS: i64 = 60;

/// One poll of the external tool's visible output, condensed to what the
/// monitor decides on.
#[derive(Clone, Copy, PartialEq, Eq, Structural, Debug)]
pub struct PollObservation {
    /// The instant of the poll, seconds since the epoch.
    pub now: i64,
    /// Whether a stop of this execution has been requested.
    pub cancel_requested: bool,
    /// Whether the in-progress marker is present in the output.
    pub activity: bool,
    /// Whether the rate-limit marker is present in the output.
    pub rate_limited: bool,
}

impl PollObservation {
    pub open spec fn wf(self) -> bool {
        0 <= self.now <= MAX_INSTANT
    }
}

/// The debounce bookkeeping carried while an execution runs.
#[derive(Clone, Copy, PartialEq, Eq, Structural, Debug)]
pub struct DebounceCounters {
    /// Whether the in-progress marker has been seen at all.
    pub seen_activity: bool,
    /// Consecutive polls on which the marker, once seen, was gone.
    pub absent_count: u8,
    /// Instant the current absence streak began, back-dated by one poll
    /// interval, since detection lags reality by up to one cadence.
    pub first_absent_at: i64,
    /// Consecutive polls carrying the rate-limit marker.
    pub rate_count: u8,
}

/// Counters of a freshly started (or resumed) execution.
pub open spec fn spec_fresh_counters() -> DebounceCounters {
    DebounceCounters { seen_activity: false, absent_count: 0, first_absent_at: 0, rate_count: 0 }
}

/// The states of one monitored execution.
#[derive(Clone, Copy, PartialEq, Eq, Structural, Debug)]
pub enum MonitorState {
    /// The execution is believed in progress and is being polled.
    Running { started_at: i64, counters: DebounceCounters },
    /// A rate limit was confirmed; the monitor waits for the retry
    /// instant, polling only the cancel flag and the clock.
    Waiting { started_at: i64, resume_at: i64, counters: DebounceCounters },
    /// The execution finished; `elapsed_secs` measures from monitor start
    /// to the first poll of the final absence streak.
    Completed { elapsed_secs: i64 },
    /// A rate limit was confirmed and auto-retry is disabled.
    RateLimited,
    /// A cancel request was observed.
    Cancelled,
    /// The external tool layer failed; reported by the runner, terminal.
    Error,
}

impl MonitorState {
    /// States the runner keeps polling in.
    pub open spec fn is_live(self) -> bool {
        self is Running || self is Waiting
    }

    /// Internal sanity of a state: counters never pass the debounce
    /// threshold and instants stay in the representable range.
    pub open spec fn wf(self) -> bool {
        match self {
            MonitorState::Running { started_at, counters } => 0 <= started_at <= MAX_INSTANT
                && counters.absent_count <= DEBOUNCE_POLLS && counters.rate_count < DEBOUNCE_POLLS
                && 0 <= counters.first_absent_at <= MAX_INSTANT,
            MonitorState::Waiting { started_at, resume_at, counters } => 0 <= started_at
                <= MAX_INSTANT && counters.absent_count <= DEBOUNCE_POLLS && counters.rate_count
                == 0 && 0 <= counters.first_absent_at <= MAX_INSTANT && 0 <= resume_at
                <= MAX_INSTANT + 3660,
            _ => true,
        }
    }

    /// The state a monitor starts in.
    pub fn start(started_at: i64) -> (r: MonitorState)
        requires
            0 <= started_at <= MAX_INSTANT,
        ensures
            r == spec_start_state(started_at),
            r.wf(),
    {
        MonitorState::Running {
            started_at,
            counters: DebounceCounters {
                seen_activity: false,
                absent_count: 0,
                first_absent_at: 0,
                rate_count: 0,
            },
        }
    }
}

/// The initial state of a monitor started at `started_at`.
pub open spec fn spec_start_state(started_at: i64) -> MonitorState {
    MonitorState::Running { started_at, counters: spec_fresh_counters() }
}

/// The earliest instant strictly after `now` that is one minute past a
/// top of hour — the safe instant to resume after a rate limit.
pub open spec fn spec_next_retry(now: int) -> int {
    if now % 3600 < 60 {
        now - now % 3600 + 60
    } else {
        now - now % 3600 + 3660
    }
}

/// Compute the retry instant after a confirmed rate limit: the earliest
/// instant strictly after `now` lying one minute past a top of hour.
pub fn next_retry_instant(now: i64) -> (r: i64)
    requires
        0 <= now <= MAX_INSTANT,
    ensures
        r == spec_next_retry(now as int),
        r > now,
        r <= now + 3600,
        r as int % 3600 == 60,
        forall|u: int| u > now && #[trigger] (u % 3600) == 60 ==> u >= r,
{
    proof {
        lemma_next_retry(now as int);
    }
    let within_hour: i64 = ((now as u64) % 3600) as i64;
    if within_hour < 60 {
        now - within_hour + 60
    } else {
        now - within_hour + 3660
    }
}

/// The retry instant is the least instant strictly after `now` that is
/// congruent to one minute past the hour.
proof fn lemma_next_retry(now: int)
    requires
        0 <= now,
    ensures
        spec_next_retry(now) > now,
        spec_next_retry(now) <= now + 3600,
        spec_next_retry(now) % 3600 == 60,
        forall|u: int| u > now && #[trigger] (u % 3600) == 60 ==> u >= spec_next_retry(now),
{
    let r = spec_next_retry(now);
    lemma_fundamental_div_mod(now, 3600);
    let q = now / 3600;
    assert(now - now % 3600 == 3600 * q);
    if now % 3600 < 60 {
        lemma_fundamental_div_mod_converse(r, 3600, q, 60);
    } else {
        lemma_fundamental_div_mod_converse(r, 3600, q + 1, 60);
    }
    assert forall|u: int| u > now && #[trigger] (u % 3600) == 60 implies u >= r by {
        lemma_fundamental_div_mod(u, 3600);
        let qu = u / 3600;
        // u == 3600 * qu + 60; if u < r then qu is too small for u > now.
        if u < r {
            if now % 3600 < 60 {
                assert(3600 * qu + 60 < 3600 * q + 60);
                assert(qu < q) by (nonlinear_arith)
                    requires
                        3600 * qu < 3600 * q,
                ;
                assert(3600 * qu + 3600 <= 3600 * q) by (nonlinear_arith)
                    requires
                        qu + 1 <= q,
                ;
                assert(u <= 3600 * q - 3600 + 60);
            } else {
                assert(3600 * qu + 60 < 3600 * (q + 1) + 60);
                assert(qu < q + 1) by (nonlinear_arith)
                    requires
                        3600 * qu < 3600 * (q + 1),
                ;
                assert(3600 * qu <= 3600 * q) by (nonlinear_arith)
                    requires
                        qu <= q,
                ;
                assert(u <= 3600 * q + 60);
                assert(now >= 3600 * q + 60);
            }
        }
    }
}

/// One transition of the monitor on one poll observation.
///
/// A cancel request always yields `Cancelled` at once. In `Running`, the
/// completion debounce counts consecutive polls on which activity, once
/// seen, is gone; at the third such poll without a rate-limit marker the
/// execution is `Completed`, its elapsed time measured from monitor start
/// to the streak's back-dated first poll. The rate-limit debounce counts
/// consecutive polls carrying the marker; at the third, the monitor moves
/// to `Waiting` for the next retry instant when auto-retry is on, and to
/// terminal `RateLimited` when it is off. In `Waiting`, reaching the
/// resume instant returns the monitor to `Running` with the rate counter
/// cleared (the runner sends the resume cue on this transition). Terminal
/// states do not move.
pub open spec fn spec_step(st: MonitorState, obs: PollObservation, auto_retry: bool) -> MonitorState {
    match st {
        MonitorState::Running { started_at, counters } => {
            if obs.cancel_requested {
                MonitorState::Cancelled
            } else {
                let gone = counters.seen_activity && !obs.activity;
                let absent = if !gone {
                    0u8
                } else if counters.absent_count < DEBOUNCE_POLLS {
                    (counters.absent_count + 1) as u8
                } else {
                    DEBOUNCE_POLLS
                };
                let first_absent = if gone && counters.absent_count == 0 {
                    spec_backdate(obs.now, started_at)
                } else if gone {
                    counters.first_absent_at
                } else {
                    0
                };
                if gone && absent >= DEBOUNCE_POLLS && !obs.rate_limited {
                    MonitorState::Completed { elapsed_secs: (first_absent - started_at) as i64 }
                } else {
                    let rate = if obs.rate_limited {
                        (counters.rate_count + 1) as u8
                    } else {
                        0u8
                    };
                    let seen = counters.seen_activity || obs.activity;
                    if rate >= DEBOUNCE_POLLS {
                        if auto_retry {
                            MonitorState::Waiting {
                                started_at,
                                resume_at: spec_next_retry(obs.now as int) as i64,
                                counters: DebounceCounters {
                                    seen_activity: seen,
                                    absent_count: absent,
                                    first_absent_at: first_absent,
                                    rate_count: 0,
                                },
                            }
                        } else {
                            MonitorState::RateLimited
                        }
                    } else {
                        MonitorState::Running {
                            started_at,
                            counters: DebounceCounters {
                                seen_activity: seen,
                                absent_count: absent,
                                first_absent_at: first_absent,
                                rate_count: rate,
                            },
                        }
                    }
                }
            }
        },
        MonitorState::Waiting { started_at, resume_at, counters } => {
            if obs.cancel_requested {
                MonitorState::Cancelled
            } else if obs.now >= resume_at {
                MonitorState::Running { started_at, counters }
            } else {
                st
            }
        },
        _ => st,
    }
}

/// The instant an absence streak is taken to begin: one poll interval
/// before the poll that first saw the marker gone, but never before the
/// monitor started.
pub open spec fn spec_backdate(now: i64, started_at: i64) -> i64 {
    if now - 60 >= started_at {
        (now - 60) as i64
    } else {
        started_at
    }
}

/// Exec form of `spec_step`; preserves state sanity.
pub fn step(st: &MonitorState, obs: &PollObservation, auto_retry: bool) -> (r: MonitorState)
    requires
        st.wf(),
        obs.wf(),
    ensures
        r == spec_step(*st, *obs, auto_retry),
        r.wf(),
{
    match st {
        MonitorState::Running { started_at, counters } => {
            if obs.cancel_requested {
                return MonitorState::Cancelled;
            }
            let gone = counters.seen_activity && !obs.activity;
            let absent: u8 = if !gone {
                0
            } else if counters.absent_count < DEBOUNCE_POLLS {
                counters.absent_count + 1
            } else {
                DEBOUNCE_POLLS
            };
            let first_absent: i64 = if gone && counters.absent_count == 0 {
                if obs.now - 60 >= *started_at {
                    obs.now - 60
                } else {
                    *started_at
                }
            } else if gone {
                counters.first_absent_at
            } else {
                0
            };
            if gone && absent >= DEBOUNCE_POLLS && !obs.rate_limited {
                return MonitorState::Completed { elapsed_secs: first_absent - started_at };
            }
            let rate: u8 = if obs.rate_limited {
                counters.rate_count + 1
            } else {
                0
            };
            let seen = counters.seen_activity || obs.activity;
            if rate >= DEBOUNCE_POLLS {
                if auto_retry {
                    MonitorState::Waiting {
                        started_at: *started_at,
                        resume_at: next_retry_instant(obs.now),
                        counters: DebounceCounters {
                            seen_activity: seen,
                            absent_count: absent,
                            first_absent_at: first_absent,
                            rate_count: 0,
                        },
                    }
                } else {
                    MonitorState::RateLimited
                }
            } else {
                MonitorState::Running {
                    started_at: *started_at,
                    counters: DebounceCounters {
                        seen_activity: seen,
                        absent_count: absent,
                        first_absent_at: first_absent,
                        rate_count: rate,
                    },
                }
            }
        },
        MonitorState::Waiting { started_at, resume_at, counters } => {
            if obs.cancel_requested {
                MonitorState::Cancelled
            } else if obs.now >= *resume_at {
                MonitorState::Running { started_at: *started_at, counters: *counters }
            } else {
                *st
            }
        },
        _ => *st,
    }
}

/// Law of the cancel check: whatever live state the monitor is in, a poll
/// with the cancel flag set moves it to `Cancelled` — cancellation takes
/// effect within one poll interval.
pub proof fn lemma_cancel_wins(st: MonitorState, obs: PollObservation, auto_retry: bool)
    requires
        st.is_live(),
        obs.cancel_requested,
    ensures
        spec_step(st, obs, auto_retry) is Cancelled,
{
}

/// Law of the completion debounce: a poll with the activity marker
/// present resets the absence streak, and completion is declared exactly
/// on the third consecutive marker-free poll (with no rate-limit marker on
/// that poll) after activity had been seen.
pub proof fn lemma_completion_debounce(
    started_at: i64,
    counters: DebounceCounters,
    obs: PollObservation,
    auto_retry: bool,
)
    requires
        (MonitorState::Running { started_at, counters }).wf(),
        !obs.cancel_requested,
    ensures
        ({
            let r = spec_step(MonitorState::Running { started_at, counters }, obs, auto_retry);
            &&& (r is Completed <==> counters.seen_activity && !obs.activity && !obs.rate_limited
                && counters.absent_count >= (DEBOUNCE_POLLS - 1) as u8)
            &&& (obs.activity && !(obs.rate_limited && counters.rate_count
                == (DEBOUNCE_POLLS - 1) as u8) ==> (r matches MonitorState::Running {
                started_at: s2,
                counters: c2,
            } && s2 == started_at && c2.absent_count == 0 && c2.seen_activity))
        }),
{
}

/// Law of the rate-limit debounce: polls carrying the rate-limit marker
/// accumulate, a marker-free poll resets the count, and the third
/// consecutive marked poll (short of completion) leaves `Running` — for
/// `Waiting` on the retry instant under auto-retry, else for terminal
/// `RateLimited`.
pub proof fn lemma_rate_limit_debounce(
    started_at: i64,
    counters: DebounceCounters,
    obs: PollObservation,
    auto_retry: bool,
)
    requires
        (MonitorState::Running { started_at, counters }).wf(),
        obs.wf(),
        !obs.cancel_requested,
        obs.rate_limited,
    ensures
        ({
            let r = spec_step(MonitorState::Running { started_at, counters }, obs, auto_retry);
            &&& (counters.rate_count == (DEBOUNCE_POLLS - 1) as u8 && auto_retry ==> (r matches
            MonitorState::Waiting { resume_at, .. } && resume_at == spec_next_retry(
                obs.now as int,
            )))
            &&& (counters.rate_count == (DEBOUNCE_POLLS - 1) as u8 && !auto_retry
                ==> r is RateLimited)
            &&& (counters.rate_count < (DEBOUNCE_POLLS - 1) as u8 ==> (r matches
            MonitorState::Running { counters: c2, .. } && c2.rate_count == (counters.rate_count
                + 1) as u8))
        }),
{
    lemma_next_retry(obs.now as int);
}

} // verus!

