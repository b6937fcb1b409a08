//! A scheduling and execution-monitoring engine for recurring invocations of
//! external command-line tools.
//!
//! The library is organised around five pieces: a recurrence calculator that
//! derives "when was this schedule last due" from a schedule definition and
//! the current time (`recurrence`), a missed-run detector that compares that
//! derivation against a durable execution history (`catchup`), an
//! execution-monitor state machine that debounces noisy poll signals into
//! completion / rate-limit / cancel transitions (`monitor`), a per-tool
//! concurrency guard (`guard`), and the history log's record format
//! (`history`). Time is measured in seconds since 1970-01-01T00:00:00;
//! `date` and `clock` supply the calendar and time-of-day arithmetic.

pub mod catchup;
pub mod clock;
pub mod commands;
pub mod date;
pub mod errors;
pub mod guard;
pub mod history;
pub mod launchd;
pub mod monitor;
pub mod recurrence;
pub mod schedule;
pub mod text;
pub mod wallclock;
