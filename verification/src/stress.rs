//! The bookkeeping of a `stress-ng` run: when one may start, what stopping
//! it records, and what ending by itself means.
//!
//! The process itself, the clock and the signals belong to the caller: it
//! tells these methods what it observed (whether the process has exited,
//! how long the run has lasted) and does what they decide.
use vstd::prelude::*;

use crate::text::{decimal, push_decimal, push_str};

verus! {

/// Whether a stress run is idle, running, or being stopped.
#[derive(Debug, Clone, Copy, PartialEq, Eq, Structural)]
pub enum StressState {
    Idle,
    Running,
    Stopping,
}

/// What polling the `stress-ng` process found.
#[derive(Debug, Clone, Copy, PartialEq, Eq, Structural)]
pub enum ProcessPoll {
    /// It has exited.
    Exited,
    /// It is still running.
    StillRunning,
    /// Polling it failed.
    Failed,
}

/// A span of time, as whole seconds and nanoseconds.
#[derive(Debug, Clone, Copy, PartialEq, Eq, Structural)]
pub struct Elapsed {
    pub secs: u64,
    pub nanos: u32,
}

/// No time at all.
pub open spec fn zero_elapsed() -> Elapsed {
    Elapsed { secs: 0, nanos: 0 }
}

/// A measured time, or zero where there was nothing to measure from.
pub open spec fn elapsed_or_zero(e: Option<Elapsed>) -> Elapsed {
    match e {
        Some(e) => e,
        None => zero_elapsed(),
    }
}

/// A run with a set duration `duration` that ended after `elapsed`
/// completed it when it lasted at least one second less than the duration;
/// otherwise it exited early.
pub open spec fn completed_run(duration: u64, elapsed: Elapsed) -> bool {
    duration > 0 && elapsed.secs >= duration - 1
}

/// The bookkeeping of a stress run.
pub ghost struct StressModel {
    pub state: StressState,
    pub has_process: bool,
    pub workers: nat,
    pub duration: nat,
    pub cause: Option<Seq<char>>,
    pub last_elapsed: Elapsed,
}

/// Nothing running, nothing recorded.
pub open spec fn model_new() -> StressModel {
    StressModel {
        state: StressState::Idle,
        has_process: false,
        workers: 0,
        duration: 0,
        cause: None,
        last_elapsed: zero_elapsed(),
    }
}

/// What polling a running process shows: where it exited, the run is over
/// (`completed` or `exited`, with its length); where polling failed, the
/// process is forgotten; otherwise nothing changes.
pub open spec fn model_poll(m: StressModel, poll: Option<ProcessPoll>, elapsed: Option<Elapsed>) -> StressModel {
    if m.state == StressState::Running && m.has_process {
        match poll {
            Some(ProcessPoll::Exited) => StressModel {
                state: StressState::Idle,
                has_process: false,
                workers: 0,
                duration: 0,
                cause: Some(
                    if completed_run(m.duration as u64, elapsed_or_zero(elapsed)) {
                        "completed"@
                    } else {
                        "exited"@
                    },
                ),
                last_elapsed: elapsed_or_zero(elapsed),
            },
            Some(ProcessPoll::Failed) => StressModel {
                state: StressState::Idle,
                has_process: false,
                ..m
            },
            _ => m,
        }
    } else {
        m
    }
}

/// A run started with `workers` workers for `duration` seconds (zero:
/// until stopped); the previous cause and length are cleared.
pub open spec fn model_start(m: StressModel, workers: nat, duration: nat) -> StressModel {
    StressModel {
        state: StressState::Running,
        has_process: true,
        workers,
        duration,
        cause: None,
        last_elapsed: zero_elapsed(),
    }
}

/// Stopping begins: with a process, its length and `cause` are recorded
/// and the run is stopping; without one, the manager is simply idle.
pub open spec fn model_begin_stop(m: StressModel, cause: Seq<char>, elapsed: Option<Elapsed>) -> StressModel {
    if m.has_process {
        StressModel {
            state: StressState::Stopping,
            cause: Some(cause),
            last_elapsed: elapsed_or_zero(elapsed),
            ..m
        }
    } else {
        StressModel { state: StressState::Idle, ..m }
    }
}

/// Killing begins: with a process, its length and the cause `killed` are
/// recorded; without one, nothing changes.
pub open spec fn model_begin_kill(m: StressModel, elapsed: Option<Elapsed>) -> StressModel {
    if m.has_process {
        StressModel { cause: Some("killed"@), last_elapsed: elapsed_or_zero(elapsed), ..m }
    } else {
        m
    }
}

/// The process is gone: idle, with no workers and no duration.
pub open spec fn model_finish(m: StressModel) -> StressModel {
    StressModel { state: StressState::Idle, has_process: false, workers: 0, duration: 0, ..m }
}

/// The bookkeeping of a `stress-ng` run.
pub struct StressManager {
    state: StressState,
    has_process: bool,
    workers: usize,
    duration_seconds: u64,
    last_stop_cause: Option<String>,
    last_elapsed: Elapsed,
}

/// The characters of an optional cause.
pub open spec fn cause_view(c: Option<String>) -> Option<Seq<char>> {
    match c {
        Some(s) => Some(s@),
        None => None,
    }
}

impl View for StressManager {
    type V = StressModel;

    closed spec fn view(&self) -> StressModel {
        StressModel {
            state: self.state,
            has_process: self.has_process,
            workers: self.workers as nat,
            duration: self.duration_seconds as nat,
            cause: cause_view(self.last_stop_cause),
            last_elapsed: self.last_elapsed,
        }
    }
}

impl StressManager {
    /// A process exists exactly while the manager is not idle.
    #[verifier::type_invariant]
    spec fn process_matches_state(self) -> bool {
        self.has_process <==> self.state != StressState::Idle
    }

    /// Nothing running, nothing recorded.
    pub fn new() -> (r: Self)
        ensures
            r@ == model_new(),
    {
        StressManager {
            state: StressState::Idle,
            has_process: false,
            workers: 0,
            duration_seconds: 0,
            last_stop_cause: None,
            last_elapsed: Elapsed { secs: 0, nanos: 0 },
        }
    }

    /// The state as last recorded, without polling.
    pub fn current_state(&self) -> (r: StressState)
        ensures
            r == self@.state,
    {
        self.state
    }

    /// Whether the process should be polled: it runs.
    pub fn should_poll(&self) -> (r: bool)
        ensures
            r == (self@.state == StressState::Running && self@.has_process),
    {
        self.state == StressState::Running && self.has_process
    }

    /// The state after taking in what polling the process showed (`poll`,
    /// `None` where it was not polled) and how long the run has lasted
    /// (`None` where it never started).
    pub fn state(&mut self, poll: Option<ProcessPoll>, elapsed: Option<Elapsed>) -> (r: StressState)
        ensures
            final(self)@ == model_poll(old(self)@, poll, elapsed),
            r == final(self)@.state,
    {
        proof {
            use_type_invariant(&*self);
        }
        if self.state == StressState::Running && self.has_process {
            match poll {
                Some(ProcessPoll::Exited) => {
                    let e = match elapsed {
                        Some(e) => e,
                        None => Elapsed { secs: 0, nanos: 0 },
                    };
                    let cause = if self.duration_seconds > 0 && e.secs
                        >= self.duration_seconds.saturating_sub(1) {
                        String::from_str("completed")
                    } else {
                        String::from_str("exited")
                    };
                    *self = StressManager {
                        state: StressState::Idle,
                        has_process: false,
                        workers: 0,
                        duration_seconds: 0,
                        last_stop_cause: Some(cause),
                        last_elapsed: e,
                    };
                },
                Some(ProcessPoll::Failed) => {
                    let cause = self.last_stop_cause.clone();
                    *self = StressManager {
                        state: StressState::Idle,
                        has_process: false,
                        workers: self.workers,
                        duration_seconds: self.duration_seconds,
                        last_stop_cause: cause,
                        last_elapsed: self.last_elapsed,
                    };
                },
                _ => {},
            }
        }
        self.state
    }

    /// Whether a run is in progress, after taking in a poll as `state`
    /// does.
    pub fn is_running(&mut self, poll: Option<ProcessPoll>, elapsed: Option<Elapsed>) -> (r: bool)
        ensures
            final(self)@ == model_poll(old(self)@, poll, elapsed),
            r == (final(self)@.state == StressState::Running),
    {
        self.state(poll, elapsed) == StressState::Running
    }

    /// How long the last run lasted.
    pub fn last_elapsed_seconds(&self) -> (r: Elapsed)
        ensures
            r == self@.last_elapsed,
    {
        self.last_elapsed
    }

    /// Why the last run ended, if one did.
    pub fn last_stop_cause(&self) -> (r: Option<&str>)
        ensures
            match r {
                Some(s) => self@.cause == Some(s@),
                None => self@.cause is None,
            },
    {
        match &self.last_stop_cause {
            Some(s) => Some(s.as_str()),
            None => None,
        }
    }

    /// Whether a run may start: only when idle.
    pub fn can_start(&self) -> (r: bool)
        ensures
            r == (self@.state == StressState::Idle),
    {
        self.state == StressState::Idle
    }

    /// Records that a run started with `workers` workers for
    /// `duration_seconds` seconds (zero: until stopped).
    pub fn record_start(&mut self, workers: usize, duration_seconds: u64)
        ensures
            final(self)@ == model_start(old(self)@, workers as nat, duration_seconds as nat),
    {
        *self = StressManager {
            state: StressState::Running,
            has_process: true,
            workers,
            duration_seconds,
            last_stop_cause: None,
            last_elapsed: Elapsed { secs: 0, nanos: 0 },
        };
    }

    /// Begins stopping for `cause`; `true` where there is a process to
    /// signal (the caller then ends it and calls `finish`).
    pub fn begin_stop(&mut self, cause: &str, elapsed: Option<Elapsed>) -> (r: bool)
        ensures
            r == old(self)@.has_process,
            final(self)@ == model_begin_stop(old(self)@, cause@, elapsed),
    {
        proof {
            use_type_invariant(&*self);
        }
        if !self.has_process {
            self.state = StressState::Idle;
            return false;
        }
        let e = match elapsed {
            Some(e) => e,
            None => Elapsed { secs: 0, nanos: 0 },
        };
        self.last_elapsed = e;
        self.last_stop_cause = Some(String::from_str(cause));
        self.state = StressState::Stopping;
        true
    }

    /// Begins killing; `true` where there is a process to kill (the caller
    /// then kills it and calls `finish`).
    pub fn begin_kill(&mut self, elapsed: Option<Elapsed>) -> (r: bool)
        ensures
            r == old(self)@.has_process,
            final(self)@ == model_begin_kill(old(self)@, elapsed),
    {
        proof {
            use_type_invariant(&*self);
        }
        if !self.has_process {
            return false;
        }
        let e = match elapsed {
            Some(e) => e,
            None => Elapsed { secs: 0, nanos: 0 },
        };
        self.last_elapsed = e;
        self.last_stop_cause = Some(String::from_str("killed"));
        true
    }

    /// Records that the process is gone.
    pub fn finish(&mut self)
        ensures
            final(self)@ == model_finish(old(self)@),
    {
        let cause = self.last_stop_cause.clone();
        *self = StressManager {
            state: StressState::Idle,
            has_process: false,
            workers: 0,
            duration_seconds: 0,
            last_stop_cause: cause,
            last_elapsed: self.last_elapsed,
        };
    }
}

/// A signal sent to the run's process group.
#[derive(Debug, Clone, Copy, PartialEq, Eq, Structural)]
pub enum EndSignal {
    /// `SIGTERM`: asks the workers to finish.
    Terminate,
    /// `SIGKILL`: ends them at once.
    Kill,
}

/// The next step in ending a run's process.
#[derive(Debug, Clone, Copy, PartialEq, Eq, Structural)]
pub enum EndStep {
    /// Send this signal, then start waiting anew.
    Send(EndSignal),
    /// Wait a little and poll again.
    Wait,
    /// The process is dealt with; record that it is gone.
    Done,
}

/// How long to wait for the process to exit after a signal, in seconds:
/// three after `Terminate`, two after `Kill`.
pub open spec fn grace_seconds(signal: EndSignal) -> int {
    match signal {
        EndSignal::Terminate => 3,
        EndSignal::Kill => 2,
    }
}

/// Ending a run's process: a stop first sends `Terminate` and a kill
/// `Kill`. After a signal, a process that has exited is done; until its
/// grace time is over the caller waits; then a process that still runs
/// after `Terminate` gets `Kill`, and otherwise it is done. `sent` is the
/// last signal sent (`None` before any), `waited_secs` the whole seconds
/// since, and `poll` what polling the process found (ignored before any
/// signal).
pub open spec fn end_step_spec(
    forced: bool,
    sent: Option<EndSignal>,
    waited_secs: int,
    poll: ProcessPoll,
) -> EndStep {
    match sent {
        None => EndStep::Send(
            if forced {
                EndSignal::Kill
            } else {
                EndSignal::Terminate
            },
        ),
        Some(signal) => {
            if poll == ProcessPoll::Exited {
                EndStep::Done
            } else if waited_secs < grace_seconds(signal) {
                EndStep::Wait
            } else if signal == EndSignal::Terminate && poll == ProcessPoll::StillRunning {
                EndStep::Send(EndSignal::Kill)
            } else {
                EndStep::Done
            }
        },
    }
}

/// The next step in ending a run's process (see `end_step_spec`): `forced`
/// for a kill, not for a stop.
pub fn end_step(forced: bool, sent: Option<EndSignal>, waited_secs: u64, poll: ProcessPoll) -> (r:
    EndStep)
    ensures
        r == end_step_spec(forced, sent, waited_secs as int, poll),
{
    match sent {
        None => {
            if forced {
                EndStep::Send(EndSignal::Kill)
            } else {
                EndStep::Send(EndSignal::Terminate)
            }
        },
        Some(signal) => {
            let grace: u64 = match signal {
                EndSignal::Terminate => 3,
                EndSignal::Kill => 2,
            };
            match poll {
                ProcessPoll::Exited => EndStep::Done,
                ProcessPoll::StillRunning => {
                    if waited_secs < grace {
                        EndStep::Wait
                    } else {
                        match signal {
                            EndSignal::Terminate => EndStep::Send(EndSignal::Kill),
                            EndSignal::Kill => EndStep::Done,
                        }
                    }
                },
                ProcessPoll::Failed => {
                    if waited_secs < grace {
                        EndStep::Wait
                    } else {
                        EndStep::Done
                    }
                },
            }
        },
    }
}

/// Ending a process escalates at most once: a stop begins with
/// `Terminate` and a kill with `Kill`; `Kill` follows `Terminate` only once
/// its three seconds are over and the process still runs; nothing follows
/// `Kill`; a process that has exited is done; and no wait outlasts the
/// signal's grace time.
pub proof fn ending_escalates_at_most_once(
    forced: bool,
    sent: Option<EndSignal>,
    waited_secs: int,
    poll: ProcessPoll,
)
    ensures
        sent is None ==> end_step_spec(forced, sent, waited_secs, poll) == EndStep::Send(
            if forced {
                EndSignal::Kill
            } else {
                EndSignal::Terminate
            },
        ),
        sent is Some && end_step_spec(forced, sent, waited_secs, poll) is Send ==> {
            &&& sent == Some(EndSignal::Terminate)
            &&& waited_secs >= 3
            &&& poll == ProcessPoll::StillRunning
            &&& end_step_spec(forced, sent, waited_secs, poll) == EndStep::Send(EndSignal::Kill)
        },
        sent == Some(EndSignal::Kill) ==> !(end_step_spec(forced, sent, waited_secs, poll) is Send),
        sent is Some && poll == ProcessPoll::Exited ==> end_step_spec(forced, sent, waited_secs, poll)
            == EndStep::Done,
        sent matches Some(signal) && waited_secs >= grace_seconds(signal) ==> end_step_spec(
            forced,
            sent,
            waited_secs,
            poll,
        ) != EndStep::Wait,
{
}

/// The arguments of `stress-ng` for a run: `--cpu <workers>
/// --metrics-brief`, and `--timeout <duration>s` where the duration is set.
pub open spec fn stress_args_spec(workers: nat, duration: nat) -> Seq<Seq<char>> {
    let base = seq!["--cpu"@, decimal(workers), "--metrics-brief"@];
    if duration > 0 {
        base + seq!["--timeout"@, decimal(duration) + "s"@]
    } else {
        base
    }
}

/// The arguments of `stress-ng` for a run.
pub fn stress_args(workers: usize, duration_seconds: u64) -> (r: Vec<String>)
    ensures
        r@.map_values(|s: String| s@) == stress_args_spec(workers as nat, duration_seconds as nat),
{
    let mut r: Vec<String> = Vec::new();
    r.push(String::from_str("--cpu"));
    let mut w = String::new();
    push_decimal(&mut w, workers as u64);
    assert(w@ =~= decimal(workers as nat));
    r.push(w);
    r.push(String::from_str("--metrics-brief"));
    if duration_seconds > 0 {
        r.push(String::from_str("--timeout"));
        let mut d = String::new();
        push_decimal(&mut d, duration_seconds);
        push_str(&mut d, "s");
        assert(d@ =~= decimal(duration_seconds as nat) + "s"@);
        r.push(d);
    }
    assert(r@.map_values(|s: String| s@) =~= stress_args_spec(
        workers as nat,
        duration_seconds as nat,
    ));
    r
}

// ---------------------------------------------------------------------------
// Laws
// ---------------------------------------------------------------------------

/// A run may be started only by an idle manager, and once recorded it runs
/// with a process and no stop cause.
pub proof fn start_runs(m: StressModel, workers: nat, duration: nat)
    ensures
        model_start(m, workers, duration).state == StressState::Running,
        model_start(m, workers, duration).has_process,
        model_start(m, workers, duration).cause is None,
{
}

/// Stopping a running run for `cause` leaves the manager idle, without a
/// process, with `cause` as the last stop cause and the measured length.
pub proof fn stop_records_cause(m: StressModel, cause: Seq<char>, elapsed: Option<Elapsed>)
    requires
        m.has_process,
    ensures
        model_finish(model_begin_stop(m, cause, elapsed)).state == StressState::Idle,
        !model_finish(model_begin_stop(m, cause, elapsed)).has_process,
        model_finish(model_begin_stop(m, cause, elapsed)).cause == Some(cause),
        model_finish(model_begin_stop(m, cause, elapsed)).last_elapsed == elapsed_or_zero(elapsed),
{
}

/// Killing a running run leaves the manager idle with the cause `killed`.
pub proof fn kill_records_killed(m: StressModel, elapsed: Option<Elapsed>)
    requires
        m.has_process,
    ensures
        model_finish(model_begin_kill(m, elapsed)).state == StressState::Idle,
        model_finish(model_begin_kill(m, elapsed)).cause == Some("killed"@),
{
}

/// Stopping or killing an idle manager changes nothing that a caller
/// sees: it stays idle and keeps its last cause.
pub proof fn stop_when_idle_keeps_cause(m: StressModel, cause: Seq<char>, elapsed: Option<Elapsed>)
    requires
        m.state == StressState::Idle,
        !m.has_process,
    ensures
        model_begin_stop(m, cause, elapsed) == m,
        model_begin_kill(m, elapsed) == m,
{
}

/// A run that ends by itself is over: the manager is idle, and the cause
/// is `completed` exactly when the run lasted at least its duration less
/// one second, `exited` otherwise.
pub proof fn exit_classifies_run(m: StressModel, elapsed: Elapsed)
    requires
        m.state == StressState::Running,
        m.has_process,
        m.duration <= u64::MAX,
    ensures
        model_poll(m, Some(ProcessPoll::Exited), Some(elapsed)).state == StressState::Idle,
        model_poll(m, Some(ProcessPoll::Exited), Some(elapsed)).cause == Some(
            if m.duration > 0 && elapsed.secs >= m.duration - 1 {
                "completed"@
            } else {
                "exited"@
            },
        ),
{
}

/// Polling an idle manager, or a process that still runs, changes nothing.
pub proof fn poll_without_exit_is_quiet(m: StressModel, elapsed: Option<Elapsed>)
    ensures
        model_poll(m, Some(ProcessPoll::StillRunning), elapsed) == m,
        model_poll(m, None, elapsed) == m,
        m.state != StressState::Running ==> model_poll(m, Some(ProcessPoll::Exited), elapsed) == m,
{
}

} // verus!
