//! The supervisor's decisions, as a state machine.
//!
//! The process handle, the polling loops and the watcher task live with the caller; each
//! of them asks the `Runner` what to do next and reports what happened. The `Runner` keeps
//! the control flags and whether a handle is held, and decides every transition.
use vstd::prelude::*;
use crate::error::Error;

verus! {

/// The control state of the supervisor.
pub struct RunnerState {
    /// The helper process is considered running (set on a successful launch, cleared once
    /// teardown is done).
    pub enabled: bool,
    /// A stop has been requested; the watcher tears the process down when it sees it.
    pub to_close: bool,
    /// A forced stop has been requested: the host is shutting down, no further
    /// notifications are sent and no new run starts.
    pub closed_unsafe: bool,
    /// A launch has been granted and its outcome is not yet recorded.
    pub launching: bool,
    /// A process handle is held.
    pub has_process: bool,
}

/// A lifecycle event for the presentation layer.
#[derive(Debug, Clone, Copy, PartialEq, Eq, Structural)]
pub enum Notice {
    Started,
    Stopped,
}

/// What a request to run decides.
#[derive(Debug, Clone, Copy, PartialEq, Eq, Structural)]
pub enum RunStep {
    /// Resolve the template and spawn the process, then report with `record_launch`.
    Launch,
    /// A run is already under way, or the host is shutting down: nothing to do.
    Busy,
}

/// What the watcher is to do on a tick.
#[derive(Debug, Clone, Copy, PartialEq, Eq, Structural)]
pub enum WatchStep {
    /// Sleep one poll interval and look again.
    Wait,
    /// The handle has been released to the watcher: kill the process, wait for it, then
    /// call `finish_teardown`.
    Teardown,
    /// No process is held any more: the watcher ends.
    Done,
}

/// How an attempt to start the helper process ended.
pub enum Launch {
    /// The process was spawned and had not exited at the immediate check.
    Alive,
    /// The process was spawned but had already exited.
    Exited,
    /// The template could not be resolved or the process could not be spawned.
    Failed(Error),
}

/// An input of the state machine, for reasoning about sequences of transitions.
pub enum Event {
    /// A request to run.
    Run,
    /// A launch outcome: whether the process is alive.
    Launched(bool),
    /// A watcher tick: whether the process has exited.
    Watch(bool),
    /// The end of a teardown.
    TornDown,
    /// A graceful stop request.
    Stop,
    /// A forced stop request.
    StopUnsafe,
}

impl RunnerState {
    /// The state at construction: idle, nothing requested, no handle.
    pub open spec fn initial() -> RunnerState {
        RunnerState {
            enabled: false,
            to_close: false,
            closed_unsafe: false,
            launching: false,
            has_process: false,
        }
    }

    /// The invariant of the flags: a launch in progress holds nothing, a handle is held only
    /// while enabled, and a stop is pending only on a run under way or once the host is
    /// shutting down.
    pub open spec fn wf(self) -> bool {
        &&& self.launching ==> !self.enabled && !self.has_process
        &&& self.has_process ==> self.enabled
        &&& self.to_close ==> self.enabled || self.launching || self.closed_unsafe
    }

    /// No run is under way: not enabled, not launching, no handle.
    pub open spec fn idle(self) -> bool {
        !self.enabled && !self.launching && !self.has_process
    }

    /// A request to run: granted only when idle and not shutting down.
    pub open spec fn run_step(self) -> (RunnerState, bool) {
        if self.enabled || self.launching || self.has_process || self.closed_unsafe {
            (self, false)
        } else {
            (RunnerState { launching: true, ..self }, true)
        }
    }

    /// The outcome of a granted launch. A live process makes the run enabled and holds the
    /// handle, announced as started unless a forced stop came meanwhile; any other outcome
    /// returns to idle and drops a pending stop. Outside a launch nothing changes.
    pub open spec fn launched(self, alive: bool) -> (RunnerState, Option<Notice>) {
        if !self.launching {
            (self, None)
        } else if alive {
            (
                RunnerState { launching: false, enabled: true, has_process: true, ..self },
                if self.closed_unsafe { None } else { Some(Notice::Started) },
            )
        } else {
            (RunnerState { launching: false, to_close: false, ..self }, None)
        }
    }

    /// A watcher tick: the handle is released for teardown once a stop is pending or the
    /// process has exited.
    pub open spec fn watch_step(self, exited: bool) -> (RunnerState, WatchStep) {
        if !self.has_process {
            (self, WatchStep::Done)
        } else if self.to_close || exited {
            (RunnerState { has_process: false, ..self }, WatchStep::Teardown)
        } else {
            (self, WatchStep::Wait)
        }
    }

    /// The end of a teardown (enabled, handle released): the run is over and the stop
    /// request is cleared; a graceful stop is announced, a forced one is not.
    pub open spec fn torn_down(self) -> (RunnerState, Option<Notice>) {
        if !self.enabled || self.has_process {
            (self, None)
        } else {
            (
                RunnerState { enabled: false, to_close: false, ..self },
                if self.closed_unsafe { None } else { Some(Notice::Stopped) },
            )
        }
    }

    /// A request to stop: it marks the run under way, if any.
    pub open spec fn stop_step(self) -> RunnerState {
        if self.enabled || self.launching {
            RunnerState { to_close: true, ..self }
        } else {
            self
        }
    }

    /// A forced stop: both the stop request and the forced flag are set, whatever the
    /// state. The host is shutting down, so no run starts after it.
    pub open spec fn stop_unsafe_step(self) -> RunnerState {
        RunnerState { to_close: true, closed_unsafe: true, ..self }
    }

    /// The state and notice after one event.
    pub open spec fn step(self, e: Event) -> (RunnerState, Option<Notice>) {
        match e {
            Event::Run => (self.run_step().0, None),
            Event::Launched(alive) => self.launched(alive),
            Event::Watch(exited) => (self.watch_step(exited).0, None),
            Event::TornDown => self.torn_down(),
            Event::Stop => (self.stop_step(), None),
            Event::StopUnsafe => (self.stop_unsafe_step(), None),
        }
    }

    /// The state after a sequence of events, and the notices sent on the way, in order.
    pub open spec fn trace(self, events: Seq<Event>) -> (RunnerState, Seq<Notice>)
        decreases events.len(),
    {
        if events.len() == 0 {
            (self, seq![])
        } else {
            let (next, n) = self.step(events[0]);
            let (last, rest) = next.trace(events.drop_first());
            (
                last,
                match n {
                    Some(x) => seq![x] + rest,
                    None => rest,
                },
            )
        }
    }
}

/// No started notice is directly followed by another started notice.
pub open spec fn alternating(ns: Seq<Notice>) -> bool {
    forall|i: int|
        0 <= i < ns.len() - 1 && #[trigger] ns[i] == Notice::Started ==> ns[i + 1]
            == Notice::Stopped
}

/// Every transition keeps the invariant of the flags.
pub proof fn lemma_step_keeps_wf(s: RunnerState, e: Event)
    requires
        s.wf(),
    ensures
        s.step(e).0.wf(),
{
}

/// The state at construction satisfies the invariant and is idle.
pub proof fn lemma_initial_is_idle()
    ensures
        RunnerState::initial().wf(),
        RunnerState::initial().idle(),
{
}

/// Starting from idle, the run is enabled after its launch is recorded exactly when the
/// process was spawned and had not exited at the immediate check; a failed start leaves
/// the state as it was.
pub proof fn lemma_start_enables_iff_alive(s: RunnerState, alive: bool)
    requires
        s.wf(),
        s.idle(),
        !s.closed_unsafe,
    ensures
        s.run_step().1,
        s.run_step().0.launched(alive).0.enabled == alive,
        !alive ==> s.run_step().0.launched(alive).0 == s,
{
}

/// A stop requested while idle changes nothing and is complete at once; outside a
/// shutdown it leaves no stop pending for a later run.
pub proof fn lemma_stop_when_idle(s: RunnerState)
    requires
        s.wf(),
        s.idle(),
    ensures
        s.stop_step() == s,
        s.stop_step().idle(),
        !s.closed_unsafe ==> !s.stop_step().to_close,
{
}

/// Requesting a stop again changes nothing: any number of stops in a row has the effect
/// of one.
pub proof fn lemma_stop_idempotent(s: RunnerState)
    ensures
        s.stop_step().stop_step() == s.stop_step(),
{
}

/// A run that was started and then stopped ends idle, with no handle held and not
/// enabled, after one watcher tick and its teardown; the notices are a start and then a
/// stop.
pub proof fn lemma_start_then_stop(s: RunnerState, exited: bool)
    requires
        s.wf(),
        s.idle(),
        !s.closed_unsafe,
    ensures
        ({
            let running = s.run_step().0.launched(true);
            let stopping = running.0.stop_step().watch_step(exited);
            let done = stopping.0.torn_down();
            &&& running.1 == Some(Notice::Started)
            &&& stopping.1 == WatchStep::Teardown
            &&& done.1 == Some(Notice::Stopped)
            &&& done.0.idle()
            &&& !done.0.enabled
            &&& !done.0.has_process
        }),
{
}

/// A second request to run, made before the first one's run is over, is refused and
/// changes nothing: one launch and one handle at a time.
pub proof fn lemma_second_run_refused(s: RunnerState)
    requires
        s.wf(),
        s.run_step().1,
    ensures
        !s.run_step().0.run_step().1,
        s.run_step().0.run_step().0 == s.run_step().0,
{
}

/// A state in which a started notice may not be the next notice: a run is enabled (its
/// start was announced), or the host is shutting down (nothing is announced any more).
pub open spec fn announced(s: RunnerState) -> bool {
    s.enabled || s.closed_unsafe
}

proof fn lemma_step_announces(s: RunnerState, e: Event)
    requires
        s.wf(),
    ensures
        s.step(e).1 == Some(Notice::Started) ==> !announced(s) && announced(s.step(e).0),
        s.step(e).1 is None && announced(s) ==> announced(s.step(e).0),
{
}

proof fn lemma_trace_alternates(s: RunnerState, events: Seq<Event>)
    requires
        s.wf(),
    ensures
        alternating(s.trace(events).1),
        announced(s) && s.trace(events).1.len() > 0 ==> s.trace(events).1[0] == Notice::Stopped,
    decreases events.len(),
{
    if events.len() > 0 {
        let e = events[0];
        let next = s.step(e).0;
        let n = s.step(e).1;
        lemma_step_keeps_wf(s, e);
        lemma_step_announces(s, e);
        lemma_trace_alternates(next, events.drop_first());
        let rest = next.trace(events.drop_first()).1;
        let all = s.trace(events).1;
        if n is Some {
            let x = n->0;
            assert(all == seq![x] + rest);
            assert forall|i: int|
                0 <= i < all.len() - 1 && #[trigger] all[i] == Notice::Started implies all[i + 1]
                == Notice::Stopped by {
                if i > 0 {
                    assert(all[i] == rest[i - 1]);
                    assert(all[i + 1] == rest[i]);
                } else {
                    assert(all[1] == rest[0]);
                }
            }
        } else {
            assert(all == rest);
        }
    }
}

/// Whatever the events, a started notice is never followed by a second started notice
/// without a stopped notice in between.
pub proof fn lemma_notices_alternate(events: Seq<Event>)
    ensures
        alternating(RunnerState::initial().trace(events).1),
{
    lemma_trace_alternates(RunnerState::initial(), events);
}

/// The supervisor's control state.
pub struct Runner {
    enabled: bool,
    to_close: bool,
    closed_unsafe: bool,
    launching: bool,
    has_process: bool,
}

impl View for Runner {
    type V = RunnerState;

    closed spec fn view(&self) -> RunnerState {
        RunnerState {
            enabled: self.enabled,
            to_close: self.to_close,
            closed_unsafe: self.closed_unsafe,
            launching: self.launching,
            has_process: self.has_process,
        }
    }
}

impl Runner {
    /// A supervisor with nothing running.
    pub fn new() -> (r: Runner)
        ensures
            r@ == RunnerState::initial(),
    {
        Runner {
            enabled: false,
            to_close: false,
            closed_unsafe: false,
            launching: false,
            has_process: false,
        }
    }

    /// Whether the helper process is considered running.
    pub fn is_enabled(&self) -> (r: bool)
        ensures
            r == self@.enabled,
    {
        self.enabled
    }

    /// A request to start a run: `Launch` when idle and not shutting down, which marks a
    /// launch in progress; `Busy` otherwise, with nothing changed.
    pub fn run(&mut self) -> (r: RunStep)
        ensures
            final(self)@ == old(self)@.run_step().0,
            (r == RunStep::Launch) == old(self)@.run_step().1,
    {
        if self.enabled || self.launching || self.has_process || self.closed_unsafe {
            RunStep::Busy
        } else {
            self.launching = true;
            RunStep::Launch
        }
    }

    /// Records how a granted launch ended. A live process gives `Ok` with the notice to
    /// send (`Started`, or none during a forced stop); a process that had already exited
    /// gives `FailedRunWinwsProcess`, a failure its own error. Outside a launch nothing
    /// changes and the result is `Ok(None)`.
    pub fn record_launch(&mut self, outcome: Launch) -> (r: Result<Option<Notice>, Error>)
        ensures
            final(self)@ == old(self)@.launched(outcome is Alive).0,
            r is Ok <==> (!old(self)@.launching || outcome is Alive),
            r matches Ok(n) ==> n == old(self)@.launched(outcome is Alive).1,
            r matches Err(e) ==> match outcome {
                Launch::Failed(f) => e == f,
                _ => e == Error::FailedRunWinwsProcess,
            },
    {
        if !self.launching {
            return Ok(None);
        }
        self.launching = false;
        match outcome {
            Launch::Alive => {
                self.enabled = true;
                self.has_process = true;
                if self.closed_unsafe {
                    Ok(None)
                } else {
                    Ok(Some(Notice::Started))
                }
            },
            Launch::Exited => {
                self.to_close = false;
                Err(Error::FailedRunWinwsProcess)
            },
            Launch::Failed(e) => {
                self.to_close = false;
                Err(e)
            },
        }
    }

    /// A watcher tick, given whether the process has exited on its own.
    pub fn watch(&mut self, exited: bool) -> (r: WatchStep)
        ensures
            (final(self)@, r) == old(self)@.watch_step(exited),
    {
        if !self.has_process {
            WatchStep::Done
        } else if self.to_close || exited {
            self.has_process = false;
            WatchStep::Teardown
        } else {
            WatchStep::Wait
        }
    }

    /// Records that the released process has been killed and waited for; returns the
    /// notice to send.
    pub fn finish_teardown(&mut self) -> (r: Option<Notice>)
        ensures
            (final(self)@, r) == old(self)@.torn_down(),
    {
        if !self.enabled || self.has_process {
            return None;
        }
        self.enabled = false;
        self.to_close = false;
        if self.closed_unsafe {
            None
        } else {
            Some(Notice::Stopped)
        }
    }

    /// Requests a graceful stop of the run under way, if any.
    pub fn stop(&mut self)
        ensures
            final(self)@ == old(self)@.stop_step(),
    {
        if self.enabled || self.launching {
            self.to_close = true;
        }
    }

    /// Whether a stop has completed: no run under way and no handle held.
    pub fn is_stopped(&self) -> (r: bool)
        ensures
            r == self@.idle(),
    {
        !self.enabled && !self.launching && !self.has_process
    }

    /// Requests a forced stop: sets the stop request and the forced flag. The run under
    /// way, if any, is torn down without a notice, and no new run starts.
    pub fn stop_unsafe(&mut self)
        ensures
            final(self)@ == old(self)@.stop_unsafe_step(),
    {
        self.to_close = true;
        self.closed_unsafe = true;
    }
}

impl Notice {
    /// The name of the UI event that carries the notice.
    pub fn event_name(&self) -> (r: &'static str)
        ensures
            r@ == match self {
                Notice::Started => "process-started"@,
                Notice::Stopped => "process-stopped"@,
            },
    {
        match self {
            Notice::Started => "process-started",
            Notice::Stopped => "process-stopped",
        }
    }

    /// The tray icon that shows the state the notice announces.
    pub fn icon(&self) -> (r: &'static str)
        ensures
            r@ == match self {
                Notice::Started => "icon.ico"@,
                Notice::Stopped => "icon2.ico"@,
            },
    {
        match self {
            Notice::Started => "icon.ico",
            Notice::Stopped => "icon2.ico",
        }
    }
}

} // verus!
