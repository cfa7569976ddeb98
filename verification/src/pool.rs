//! Lifecycle of the persistent Python worker processes of the pool.
//!
//! The processes themselves are run by the application; the library holds
//! each worker's state machine and the pool's decisions.

use vstd::prelude::*;
use vstd::string::*;
use crate::error::DaemonError;
use crate::models::{TestOutcome, TestResult};
use crate::text::{decimal, signed_decimal, push_str_chars, push_decimal, push_signed_decimal};

verus! {

/// A point in time, from the monotonic clock.
#[verifier::external_type_specification]
#[verifier::external_body]
pub struct ExInstant(std::time::Instant);

/// Number of test runs after which a worker is recycled.
pub const DEFAULT_MAX_RUNS: usize = 100;

/// Reason why a worker is being recycled.
#[derive(Debug, Clone, Copy, PartialEq, Eq, Structural)]
pub enum RecycleReason {
    /// Worker reached maximum run count.
    MaxRunsReached,
    /// Worker process is no longer healthy.
    Unhealthy,
    /// Worker was explicitly shut down.
    ExplicitShutdown,
}

/// Lifecycle states for a worker process.
///
/// Transitions:
/// - Spawning -> Ready (successful startup handshake)
/// - Ready -> Busy (test execution started)
/// - Busy -> Ready (test execution completed successfully)
/// - Busy -> Recycling (max runs reached or error)
/// - Ready -> Recycling (explicit shutdown or max runs)
/// - Recycling -> Dead (process exited)
/// - Spawning -> Dead (startup failed)
/// - Ready -> Dead, Busy -> Dead (process exited)
#[derive(Debug, Clone, Copy, PartialEq, Eq)]
pub enum WorkerState {
    /// Worker process is starting up.
    Spawning,
    /// Worker is idle and ready to accept work.
    Ready,
    /// Worker is currently executing tests.
    Busy { started_at: std::time::Instant },
    /// Worker is being recycled and should not accept new work.
    Recycling { reason: RecycleReason },
    /// Worker process has exited.
    Dead { exit_code: Option<i32> },
}

/// The transitions of the worker state machine.
pub open spec fn valid_transition(from: WorkerState, to: WorkerState) -> bool {
    match from {
        WorkerState::Spawning => to is Ready || to is Dead,
        WorkerState::Ready => to is Busy || to is Recycling || to is Dead,
        WorkerState::Busy { .. } => to is Ready || to is Recycling || to is Dead,
        WorkerState::Recycling { .. } => to is Dead,
        WorkerState::Dead { .. } => false,
    }
}

/// Alive: starting, idle or running tests.
pub open spec fn spec_alive(s: WorkerState) -> bool {
    s is Spawning || s is Ready || s is Busy
}

/// Terminal: being recycled or exited.
pub open spec fn spec_terminal(s: WorkerState) -> bool {
    s is Recycling || s is Dead
}

/// Every state is either alive or terminal, never both.
pub proof fn lemma_alive_or_terminal(s: WorkerState)
    ensures
        spec_alive(s) != spec_terminal(s),
{
}

/// No transition leads out of a terminal state back to an alive one, and
/// nothing leaves the dead state.
pub proof fn lemma_terminal_is_final(from: WorkerState, to: WorkerState)
    requires
        spec_terminal(from),
        valid_transition(from, to),
    ensures
        to is Dead,
        !(from is Dead),
{
}

/// The `Debug` text of an instant of the monotonic clock.
///
/// Calls `format!("{:?}", ..)` on `std::time::Instant`. What that text holds
/// depends on the platform's clock and is left unsaid.
#[verifier::external_body]
fn instant_text(i: std::time::Instant) -> (r: String) {
    format!("{:?}", i)
}

/// The debug text of a recycle reason.
pub open spec fn reason_text(r: RecycleReason) -> Seq<char> {
    match r {
        RecycleReason::MaxRunsReached => "MaxRunsReached"@,
        RecycleReason::Unhealthy => "Unhealthy"@,
        RecycleReason::ExplicitShutdown => "ExplicitShutdown"@,
    }
}

/// The debug text of an optional exit code.
pub open spec fn exit_code_text(c: Option<i32>) -> Seq<char> {
    match c {
        Some(n) => "Some("@ + signed_decimal(n) + ")"@,
        None => "None"@,
    }
}

/// The debug text of a state, where `instant` is the debug text of the
/// moment a busy worker started.
pub open spec fn state_text(s: WorkerState, instant: Seq<char>) -> Seq<char> {
    match s {
        WorkerState::Spawning => "Spawning"@,
        WorkerState::Ready => "Ready"@,
        WorkerState::Busy { .. } => "Busy { started_at: "@ + instant + " }"@,
        WorkerState::Recycling { reason } => "Recycling { reason: "@ + reason_text(reason) + " }"@,
        WorkerState::Dead { exit_code } => "Dead { exit_code: "@ + exit_code_text(exit_code) + " }"@,
    }
}

/// The message of a refused transition.
pub open spec fn transition_text(
    from: WorkerState,
    to: WorkerState,
    from_instant: Seq<char>,
    to_instant: Seq<char>,
) -> Seq<char> {
    "Invalid worker state transition: "@ + state_text(from, from_instant) + " -> "@ + state_text(
        to,
        to_instant,
    )
}

/// The message of a run refused because the worker is not ready.
pub open spec fn not_ready_text(id: usize, s: WorkerState, instant: Seq<char>) -> Seq<char> {
    "Worker "@ + decimal(id as nat) + " cannot run tests in state "@ + state_text(s, instant)
}

/// The message of a shutdown refused because the worker is already terminal.
pub open spec fn terminal_text(id: usize, s: WorkerState, instant: Seq<char>) -> Seq<char> {
    "Worker "@ + decimal(id as nat) + " is already in terminal state "@ + state_text(s, instant)
}

/// Appends the debug text of `st` to `s`; the result is the text used for
/// the instant of a busy state.
fn push_state_text(s: &mut String, st: &WorkerState) -> (instant: Ghost<Seq<char>>)
    ensures
        final(s)@ == old(s)@ + state_text(*st, instant@),
{
    match st {
        WorkerState::Spawning => {
            push_str_chars(s, "Spawning");
            Ghost(Seq::empty())
        },
        WorkerState::Ready => {
            push_str_chars(s, "Ready");
            Ghost(Seq::empty())
        },
        WorkerState::Busy { started_at } => {
            let t = instant_text(*started_at);
            push_str_chars(s, "Busy { started_at: ");
            push_str_chars(s, t.as_str());
            push_str_chars(s, " }");
            assert(s@ =~= old(s)@ + state_text(*st, t@));
            Ghost(t@)
        },
        WorkerState::Recycling { reason } => {
            push_str_chars(s, "Recycling { reason: ");
            match reason {
                RecycleReason::MaxRunsReached => push_str_chars(s, "MaxRunsReached"),
                RecycleReason::Unhealthy => push_str_chars(s, "Unhealthy"),
                RecycleReason::ExplicitShutdown => push_str_chars(s, "ExplicitShutdown"),
            }
            push_str_chars(s, " }");
            assert(s@ =~= old(s)@ + state_text(*st, Seq::empty()));
            Ghost(Seq::empty())
        },
        WorkerState::Dead { exit_code } => {
            push_str_chars(s, "Dead { exit_code: ");
            match exit_code {
                Some(n) => {
                    push_str_chars(s, "Some(");
                    push_signed_decimal(s, *n);
                    push_str_chars(s, ")");
                },
                None => push_str_chars(s, "None"),
            }
            push_str_chars(s, " }");
            assert(s@ =~= old(s)@ + state_text(*st, Seq::empty()));
            Ghost(Seq::empty())
        },
    }
}

/// The message of a refused transition, built from the debug forms of both states.
fn transition_message(from: &WorkerState, to: &WorkerState) -> (r: String)
    ensures
        exists|a: Seq<char>, b: Seq<char>| r@ == transition_text(*from, *to, a, b),
{
    let mut m = String::new();
    push_str_chars(&mut m, "Invalid worker state transition: ");
    let a = push_state_text(&mut m, from);
    push_str_chars(&mut m, " -> ");
    let b = push_state_text(&mut m, to);
    assert(m@ =~= transition_text(*from, *to, a@, b@));
    m
}

/// A message of the form `Worker <id><middle><state>`, with the text used for
/// the instant of a busy state.
fn worker_state_message(id: usize, middle: &str, state: &WorkerState) -> (r: (String, Ghost<Seq<char>>))
    ensures
        r.0@ == "Worker "@ + decimal(id as nat) + middle@ + state_text(*state, r.1@),
{
    let mut m = String::new();
    push_str_chars(&mut m, "Worker ");
    push_decimal(&mut m, id as u64);
    push_str_chars(&mut m, middle);
    let a = push_state_text(&mut m, state);
    assert(m@ =~= "Worker "@ + decimal(id as nat) + middle@ + state_text(*state, a@));
    (m, a)
}

impl WorkerState {
    /// Returns true if the worker can accept test execution.
    pub fn is_ready(&self) -> (r: bool)
        ensures
            r == (*self is Ready),
    {
        match self {
            WorkerState::Ready => true,
            _ => false,
        }
    }

    /// Returns true if the worker is actively running tests.
    pub fn is_busy(&self) -> (r: bool)
        ensures
            r == (*self is Busy),
    {
        match self {
            WorkerState::Busy { .. } => true,
            _ => false,
        }
    }

    /// Returns true if the worker process is still alive (Spawning, Ready, or Busy).
    pub fn is_alive(&self) -> (r: bool)
        ensures
            r == spec_alive(*self),
    {
        match self {
            WorkerState::Spawning | WorkerState::Ready | WorkerState::Busy { .. } => true,
            _ => false,
        }
    }

    /// Returns true if the worker has been recycled or is dead.
    pub fn is_terminal(&self) -> (r: bool)
        ensures
            r == spec_terminal(*self),
    {
        match self {
            WorkerState::Recycling { .. } | WorkerState::Dead { .. } => true,
            _ => false,
        }
    }

    /// Attempt to transition to a new state: the new state on a transition
    /// of the state machine, an error otherwise.
    pub fn transition_to(self, next: WorkerState) -> (r: Result<WorkerState, DaemonError>)
        ensures
            r is Ok <==> valid_transition(self, next),
            r matches Ok(s) ==> s == next,
            r matches Err(e) ==> e matches DaemonError::Other(m) && exists|a: Seq<char>, b: Seq<char>|
                m@ == transition_text(self, next, a, b),
    {
        let valid = match (&self, &next) {
            (WorkerState::Spawning, WorkerState::Ready) => true,
            (WorkerState::Spawning, WorkerState::Dead { .. }) => true,
            (WorkerState::Ready, WorkerState::Busy { .. }) => true,
            (WorkerState::Ready, WorkerState::Recycling { .. }) => true,
            (WorkerState::Ready, WorkerState::Dead { .. }) => true,
            (WorkerState::Busy { .. }, WorkerState::Ready) => true,
            (WorkerState::Busy { .. }, WorkerState::Recycling { .. }) => true,
            (WorkerState::Busy { .. }, WorkerState::Dead { .. }) => true,
            (WorkerState::Recycling { .. }, WorkerState::Dead { .. }) => true,
            _ => false,
        };
        if valid {
            Ok(next)
        } else {
            Err(DaemonError::Other(transition_message(&self, &next)))
        }
    }
}

/// What a check of the worker's process found.
#[derive(Debug, Clone, Copy, PartialEq, Eq, Structural)]
pub enum ProcessStatus {
    /// The process is still running.
    Running,
    /// The process exited, with its exit code if it has one.
    Exited(Option<i32>),
    /// The process could not be checked.
    Unknown,
}

/// The bookkeeping of one worker process: its state and how many runs it made.
#[derive(Debug)]
pub struct WorkerLifecycle {
    id: usize,
    state: WorkerState,
    run_count: usize,
    max_runs: usize,
}

impl WorkerLifecycle {
    /// The worker's number in the pool.
    pub closed spec fn spec_id(&self) -> usize {
        self.id
    }

    /// The current state.
    pub closed spec fn spec_state(&self) -> WorkerState {
        self.state
    }

    /// The number of completed runs.
    pub closed spec fn spec_run_count(&self) -> nat {
        self.run_count as nat
    }

    /// The number of runs after which the worker is recycled.
    pub closed spec fn spec_max_runs(&self) -> nat {
        self.max_runs as nat
    }

    /// A worker that is starting up, with no runs yet.
    pub fn new(id: usize) -> (w: WorkerLifecycle)
        ensures
            w.spec_id() == id,
            w.spec_state() is Spawning,
            w.spec_run_count() == 0,
            w.spec_max_runs() == DEFAULT_MAX_RUNS,
    {
        WorkerLifecycle { id, state: WorkerState::Spawning, run_count: 0, max_runs: DEFAULT_MAX_RUNS }
    }

    /// The worker's number in the pool.
    pub fn id(&self) -> (r: usize)
        ensures
            r == self.spec_id(),
    {
        self.id
    }

    /// Get the current state of the worker.
    pub fn state(&self) -> (r: &WorkerState)
        ensures
            *r == self.spec_state(),
    {
        &self.state
    }

    /// The number of completed runs.
    pub fn run_count(&self) -> (r: usize)
        ensures
            r == self.spec_run_count(),
    {
        self.run_count
    }

    /// The startup handshake succeeded: the worker becomes ready.
    pub fn mark_ready(&mut self)
        ensures
            final(self).spec_state() is Ready,
            final(self).spec_id() == old(self).spec_id(),
            final(self).spec_run_count() == old(self).spec_run_count(),
            final(self).spec_max_runs() == old(self).spec_max_runs(),
    {
        self.state = WorkerState::Ready;
    }

    /// Check if the worker needs recycling (too many runs).
    pub fn needs_recycle(&self) -> (r: bool)
        ensures
            r == (self.spec_run_count() >= self.spec_max_runs()),
    {
        self.run_count >= self.max_runs
    }

    /// Starts a run: only a ready worker may run tests, and it becomes busy.
    pub fn begin_run(&mut self, now: std::time::Instant) -> (r: Result<(), DaemonError>)
        ensures
            r is Ok <==> old(self).spec_state() is Ready,
            r is Ok ==> final(self).spec_state() == (WorkerState::Busy { started_at: now }),
            r is Err ==> final(self).spec_state() == old(self).spec_state(),
            r matches Err(e) ==> e matches DaemonError::Other(m) && exists|a: Seq<char>|
                m@ == not_ready_text(old(self).spec_id(), old(self).spec_state(), a),
            final(self).spec_id() == old(self).spec_id(),
            final(self).spec_run_count() == old(self).spec_run_count(),
            final(self).spec_max_runs() == old(self).spec_max_runs(),
    {
        if !self.state.is_ready() {
            let (m, a) = worker_state_message(self.id, " cannot run tests in state ", &self.state);
            assert(m@ == not_ready_text(old(self).spec_id(), old(self).spec_state(), a@));
            return Err(DaemonError::Other(m));
        }
        self.state = WorkerState::Busy { started_at: now };
        Ok(())
    }

    /// Ends a run: after a successful run the count goes up and the worker is
    /// ready again, or recycled once it reached its maximum number of runs;
    /// after a failed run it is recycled as unhealthy.
    pub fn finish_run(&mut self, succeeded: bool)
        requires
            succeeded ==> old(self).spec_run_count() < usize::MAX,
        ensures
            succeeded ==> final(self).spec_run_count() == old(self).spec_run_count() + 1,
            !succeeded ==> final(self).spec_run_count() == old(self).spec_run_count(),
            final(self).spec_state() == (if !succeeded {
                WorkerState::Recycling { reason: RecycleReason::Unhealthy }
            } else if old(self).spec_run_count() + 1 >= old(self).spec_max_runs() {
                WorkerState::Recycling { reason: RecycleReason::MaxRunsReached }
            } else {
                WorkerState::Ready
            }),
            final(self).spec_id() == old(self).spec_id(),
            final(self).spec_max_runs() == old(self).spec_max_runs(),
    {
        if succeeded {
            self.run_count = self.run_count + 1;
            if self.needs_recycle() {
                self.state = WorkerState::Recycling { reason: RecycleReason::MaxRunsReached };
            } else {
                self.state = WorkerState::Ready;
            }
        } else {
            self.state = WorkerState::Recycling { reason: RecycleReason::Unhealthy };
        }
    }

    /// Records what a check of the process found and says whether the worker
    /// is alive: a dead worker stays dead without a check; an exited process,
    /// or one that cannot be checked, makes the worker dead.
    pub fn note_process(&mut self, status: ProcessStatus) -> (alive: bool)
        ensures
            old(self).spec_state() is Dead ==> !alive && final(self).spec_state() == old(self).spec_state(),
            !(old(self).spec_state() is Dead) ==> match status {
                ProcessStatus::Running => alive && final(self).spec_state() == old(self).spec_state(),
                ProcessStatus::Exited(code) => !alive && final(self).spec_state() == (WorkerState::Dead { exit_code: code }),
                ProcessStatus::Unknown => !alive && final(self).spec_state() == (WorkerState::Dead { exit_code: None }),
            },
            final(self).spec_id() == old(self).spec_id(),
            final(self).spec_run_count() == old(self).spec_run_count(),
            final(self).spec_max_runs() == old(self).spec_max_runs(),
    {
        if let WorkerState::Dead { .. } = self.state {
            return false;
        }
        match status {
            ProcessStatus::Running => true,
            ProcessStatus::Exited(code) => {
                self.state = WorkerState::Dead { exit_code: code };
                false
            },
            ProcessStatus::Unknown => {
                self.state = WorkerState::Dead { exit_code: None };
                false
            },
        }
    }

    /// Starts a graceful shutdown: a worker that is already terminal refuses
    /// with an error and keeps its state; any other worker is recycled for an
    /// explicit shutdown.
    pub fn begin_shutdown(&mut self) -> (r: Result<(), DaemonError>)
        ensures
            r is Ok <==> !spec_terminal(old(self).spec_state()),
            r is Ok ==> final(self).spec_state() == (WorkerState::Recycling { reason: RecycleReason::ExplicitShutdown }),
            r is Err ==> final(self).spec_state() == old(self).spec_state(),
            r matches Err(e) ==> e matches DaemonError::Other(m) && exists|a: Seq<char>|
                m@ == terminal_text(old(self).spec_id(), old(self).spec_state(), a),
            final(self).spec_id() == old(self).spec_id(),
            final(self).spec_run_count() == old(self).spec_run_count(),
            final(self).spec_max_runs() == old(self).spec_max_runs(),
    {
        if self.state.is_terminal() {
            let (m, a) = worker_state_message(self.id, " is already in terminal state ", &self.state);
            assert(m@ == terminal_text(old(self).spec_id(), old(self).spec_state(), a@));
            return Err(DaemonError::Other(m));
        }
        self.state = WorkerState::Recycling { reason: RecycleReason::ExplicitShutdown };
        Ok(())
    }

    /// The process was stopped after a shutdown: the worker is dead with code 0.
    pub fn finish_shutdown(&mut self)
        ensures
            final(self).spec_state() == (WorkerState::Dead { exit_code: Some(0) }),
            final(self).spec_id() == old(self).spec_id(),
            final(self).spec_run_count() == old(self).spec_run_count(),
            final(self).spec_max_runs() == old(self).spec_max_runs(),
    {
        self.state = WorkerState::Dead { exit_code: Some(0) };
    }
}

/// What the pool does with a worker taken from its stack.
#[derive(Debug, Clone, Copy, PartialEq, Eq, Structural)]
pub enum AcquireVerdict {
    /// Hand the worker out.
    Use,
    /// Drop the worker and look at the next one.
    Drop,
}

/// A worker taken from the pool is used only when it is alive, has not
/// reached its maximum number of runs and is ready.
pub fn acquire_verdict(alive: bool, needs_recycle: bool, ready: bool) -> (v: AcquireVerdict)
    ensures
        v == (if alive && !needs_recycle && ready {
            AcquireVerdict::Use
        } else {
            AcquireVerdict::Drop
        }),
{
    if !alive {
        AcquireVerdict::Drop
    } else if needs_recycle {
        AcquireVerdict::Drop
    } else if ready {
        AcquireVerdict::Use
    } else {
        AcquireVerdict::Drop
    }
}

/// A worker goes back to the pool only when it is ready and the pool is not full.
pub fn keep_on_release(ready: bool, available: usize, size: usize) -> (keep: bool)
    ensures
        keep == (ready && available < size),
{
    ready && available < size
}

/// The ids of the workers to spawn so that a pool holding `current` workers
/// reaches `size`: `current`, `current + 1`, ..., `size - 1`.
pub fn ids_to_spawn(current: usize, size: usize) -> (r: Vec<usize>)
    ensures
        current >= size ==> r@.len() == 0,
        current < size ==> r@.len() == size - current,
        forall|i: int| 0 <= i < r@.len() ==> #[trigger] r@[i] == current + i,
{
    let mut r: Vec<usize> = Vec::new();
    let mut i = current;
    while i < size
        invariant
            current <= size ==> current <= i <= size,
            current > size ==> i == current,
            r@.len() == i - current,
            forall|k: int| 0 <= k < r@.len() ==> #[trigger] r@[k] == current + k,
        decreases size - i,
    {
        r.push(i);
        i = i + 1;
    }
    r
}

/// One error result for each test of a batch that could not run, with the
/// given message.
pub fn error_results(tests: &Vec<String>, message: &str) -> (r: Vec<TestResult>)
    ensures
        r@.len() == tests@.len(),
        forall|i: int|
            0 <= i < r@.len() ==> {
                &&& (#[trigger] r@[i]).node_id@ == tests@[i]@
                &&& r@[i].outcome == TestOutcome::Error
                &&& r@[i].duration_ms == 0
                &&& r@[i].message matches Some(m) && m@ == message@
                &&& r@[i].stdout is None
                &&& r@[i].stderr is None
            },
{
    let mut r: Vec<TestResult> = Vec::new();
    let mut i: usize = 0;
    while i < tests.len()
        invariant
            i <= tests@.len(),
            r@.len() == i,
            forall|k: int|
                0 <= k < i ==> {
                    &&& (#[trigger] r@[k]).node_id@ == tests@[k]@
                    &&& r@[k].outcome == TestOutcome::Error
                    &&& r@[k].duration_ms == 0
                    &&& r@[k].message matches Some(m) && m@ == message@
                    &&& r@[k].stdout is None
                    &&& r@[k].stderr is None
                },
        decreases tests@.len() - i,
    {
        r.push(
            TestResult {
                node_id: tests[i].clone(),
                outcome: TestOutcome::Error,
                duration_ms: 0,
                message: Some(String::from_str(message)),
                stdout: None,
                stderr: None,
            },
        );
        i = i + 1;
    }
    r
}

} // verus!
