//! The concurrency guard: per-tool running and cancel flags.
//!
//! At most one execution may be in flight per tool. Every component that
//! starts, stops or finishes an execution goes through the guard's three
//! operations; nothing mutates the flags directly. The flags live only for
//! the process: a fresh guard starts with everything cleared.

use vstd::prelude::*;
use crate::errors::EngineError;
use crate::schedule::Tool;

verus! {

/// The transient run state of one tool.
#[derive(Clone, Copy, PartialEq, Eq, Structural, Debug)]
pub struct ToolRunState {
    pub is_running: bool,
    pub cancel_requested: bool,
}

/// Running/cancel flags for every supported tool.
#[derive(Clone, Copy, PartialEq, Eq, Structural, Debug)]
pub struct ConcurrencyGuard {
    pub opus: ToolRunState,
    pub codex: ToolRunState,
    pub gemini: ToolRunState,
}

/// The state `try_start` leaves a tool in: running, with any earlier
/// cancel request cleared.
pub open spec fn spec_started() -> ToolRunState {
    ToolRunState { is_running: true, cancel_requested: false }
}

/// The state `request_stop` leaves a tool in: not running, cancel asked.
pub open spec fn spec_stop_requested() -> ToolRunState {
    ToolRunState { is_running: false, cancel_requested: true }
}

impl ConcurrencyGuard {
    /// The flags of one tool.
    pub open spec fn spec_state_of(self, t: Tool) -> ToolRunState {
        match t {
            Tool::Opus => self.opus,
            Tool::Codex => self.codex,
            Tool::Gemini => self.gemini,
        }
    }

    /// The guard with tool `t`'s flags replaced by `st`.
    pub open spec fn spec_with_state(self, t: Tool, st: ToolRunState) -> ConcurrencyGuard {
        match t {
            Tool::Opus => ConcurrencyGuard { opus: st, ..self },
            Tool::Codex => ConcurrencyGuard { codex: st, ..self },
            Tool::Gemini => ConcurrencyGuard { gemini: st, ..self },
        }
    }

    /// What `try_start` does: refused without change when the tool is
    /// already running, else the tool becomes running with the cancel
    /// flag cleared.
    pub open spec fn spec_try_start(self, t: Tool) -> (ConcurrencyGuard, bool) {
        if self.spec_state_of(t).is_running {
            (self, false)
        } else {
            (self.spec_with_state(t, spec_started()), true)
        }
    }

    /// A fresh guard: nothing running, nothing cancelled.
    pub fn new() -> (r: ConcurrencyGuard)
        ensures
            forall|t: Tool|
                r.spec_state_of(t) == (ToolRunState {
                    is_running: false,
                    cancel_requested: false,
                }),
    {
        let off = ToolRunState { is_running: false, cancel_requested: false };
        ConcurrencyGuard { opus: off, codex: off, gemini: off }
    }

    /// Atomically claim tool `t`: fails with `AlreadyRunning` and changes
    /// nothing when the tool is running, else marks it running and clears
    /// any stale cancel request.
    pub fn try_start(&mut self, t: Tool) -> (r: Result<(), EngineError>)
        ensures
            (*final(self), r is Ok) == old(self).spec_try_start(t),
            r matches Err(e) ==> e is AlreadyRunning,
    {
        if self.is_running(t) {
            Err(EngineError::AlreadyRunning)
        } else {
            self.set_state(t, ToolRunState { is_running: true, cancel_requested: false });
            Ok(())
        }
    }

    /// Ask the running execution of tool `t` to stop: the cancel flag is
    /// raised and the running flag dropped at once. Cooperative: the
    /// monitor observes the flag at its next poll. A stop of a tool that
    /// is not running is a no-op success, leaving the same flags.
    pub fn request_stop(&mut self, t: Tool)
        ensures
            *final(self) == old(self).spec_with_state(t, spec_stop_requested()),
    {
        self.set_state(t, ToolRunState { is_running: false, cancel_requested: true });
    }

    /// Unconditionally clear the running flag of tool `t`; called on every
    /// exit path of an execution so a stuck flag never survives it.
    pub fn finish(&mut self, t: Tool)
        ensures
            *final(self) == old(self).spec_with_state(
                t,
                ToolRunState {
                    is_running: false,
                    cancel_requested: old(self).spec_state_of(t).cancel_requested,
                },
            ),
    {
        let cancel = self.cancel_requested(t);
        self.set_state(t, ToolRunState { is_running: false, cancel_requested: cancel });
    }

    /// Whether tool `t` is currently marked running.
    pub fn is_running(&self, t: Tool) -> (r: bool)
        ensures
            r == self.spec_state_of(t).is_running,
    {
        match t {
            Tool::Opus => self.opus.is_running,
            Tool::Codex => self.codex.is_running,
            Tool::Gemini => self.gemini.is_running,
        }
    }

    /// Whether a stop of tool `t` has been requested.
    pub fn cancel_requested(&self, t: Tool) -> (r: bool)
        ensures
            r == self.spec_state_of(t).cancel_requested,
    {
        match t {
            Tool::Opus => self.opus.cancel_requested,
            Tool::Codex => self.codex.cancel_requested,
            Tool::Gemini => self.gemini.cancel_requested,
        }
    }

    /// Read-only snapshot of the running flags, one per tool.
    pub fn status(&self) -> (r: (bool, bool, bool))
        ensures
            r.0 == self.opus.is_running,
            r.1 == self.codex.is_running,
            r.2 == self.gemini.is_running,
    {
        (self.opus.is_running, self.codex.is_running, self.gemini.is_running)
    }

    fn set_state(&mut self, t: Tool, st: ToolRunState)
        ensures
            *final(self) == old(self).spec_with_state(t, st),
    {
        match t {
            Tool::Opus => {
                self.opus = st;
            },
            Tool::Codex => {
                self.codex = st;
            },
            Tool::Gemini => {
                self.gemini = st;
            },
        }
    }
}

/// Law of the guard: starting a tool that is free succeeds, and starting
/// it again without an intervening `finish` or `request_stop` is refused
/// and changes nothing.
pub proof fn lemma_try_start_twice(g: ConcurrencyGuard, t: Tool)
    requires
        !g.spec_state_of(t).is_running,
    ensures
        g.spec_try_start(t).1,
        !g.spec_try_start(t).0.spec_try_start(t).1,
        g.spec_try_start(t).0.spec_try_start(t).0 == g.spec_try_start(t).0,
{
}

} // verus!
