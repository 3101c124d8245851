//! The decisions of the worker lifecycle and of the cluster runtime: the
//! phases a worker goes through, when its polling loop stops, how the
//! communication fabric is chosen, how worker outcomes combine, and how a
//! launch is laid out.
use vstd::prelude::*;

use crate::progress::ResumeFrom;

verus! {

/// The phase a worker is in; a worker goes through them strictly in order.
#[derive(Debug, Clone, Copy, PartialEq, Eq, Structural)]
pub enum WorkerPhase {
    /// Draining the progress log into the progress store.
    LoadingProgress,
    /// Draining the state log as of the resume point.
    LoadingState(ResumeFrom),
    /// Running the production dataflow from the resume point.
    Producing(ResumeFrom),
    /// Tearing down every dataflow installed on the worker.
    ShuttingDown,
    /// Finished after a clean shutdown.
    Done,
    /// Stopped by a fault; terminal.
    Failed,
}

/// What ended the work of the current phase.
#[derive(Debug, Clone, Copy, PartialEq, Eq, Structural)]
pub enum WorkerEvent {
    /// The progress log is drained and the resume point computed.
    ProgressLoaded(ResumeFrom),
    /// The state log is drained.
    StateLoaded,
    /// The production dataflow ran to completion.
    ProductionDone,
    /// Every dataflow was torn down.
    ShutDown,
    /// A build error, runtime error or interrupt.
    Fault,
}

/// The phase after `e` ends the work of phase `p`. A fault, or an event
/// that does not belong to the phase, stops the worker.
pub open spec fn phase_after(p: WorkerPhase, e: WorkerEvent) -> WorkerPhase {
    match (p, e) {
        (WorkerPhase::LoadingProgress, WorkerEvent::ProgressLoaded(r)) => WorkerPhase::LoadingState(r),
        (WorkerPhase::LoadingState(r), WorkerEvent::StateLoaded) => WorkerPhase::Producing(r),
        (WorkerPhase::Producing(_), WorkerEvent::ProductionDone) => WorkerPhase::ShuttingDown,
        (WorkerPhase::ShuttingDown, WorkerEvent::ShutDown) => WorkerPhase::Done,
        (WorkerPhase::Done, _) => WorkerPhase::Done,
        _ => WorkerPhase::Failed,
    }
}

/// The next phase of a worker.
pub fn next_phase(p: WorkerPhase, e: WorkerEvent) -> (r: WorkerPhase)
    ensures
        r == phase_after(p, e),
{
    match (p, e) {
        (WorkerPhase::LoadingProgress, WorkerEvent::ProgressLoaded(r)) => WorkerPhase::LoadingState(r),
        (WorkerPhase::LoadingState(r), WorkerEvent::StateLoaded) => WorkerPhase::Producing(r),
        (WorkerPhase::Producing(_), WorkerEvent::ProductionDone) => WorkerPhase::ShuttingDown,
        (WorkerPhase::ShuttingDown, WorkerEvent::ShutDown) => WorkerPhase::Done,
        (WorkerPhase::Done, _) => WorkerPhase::Done,
        _ => WorkerPhase::Failed,
    }
}

/// What a worker's cooperative polling loop does next.
#[derive(Debug, Clone, Copy, PartialEq, Eq, Structural)]
pub enum LoopAction {
    /// Advance the dataflow by one step.
    Step,
    /// Leave the loop: the dataflow is complete or the cluster is stopping.
    Stop,
    /// Set the shared interrupt flag and fail with the interrupt.
    Interrupt,
}

/// The loop's next move: stop once the interrupt flag is set or the
/// completion probe reports done; fail on a pending interrupt signal;
/// otherwise step.
pub fn next_action(interrupt_flag: bool, probe_done: bool, signal_pending: bool) -> (r: LoopAction)
    ensures
        (interrupt_flag || probe_done) ==> r == LoopAction::Stop,
        !(interrupt_flag || probe_done) && signal_pending ==> r == LoopAction::Interrupt,
        !(interrupt_flag || probe_done || signal_pending) ==> r == LoopAction::Step,
{
    if interrupt_flag || probe_done {
        LoopAction::Stop
    } else if signal_pending {
        LoopAction::Interrupt
    } else {
        LoopAction::Step
    }
}

/// A span that is closed and reopened once its length has elapsed; times
/// are in milliseconds of a monotonic clock.
#[derive(Debug, Clone, Copy, PartialEq, Eq, Structural)]
pub struct PeriodicSpan {
    pub length: u64,
    pub last_open: u64,
    pub counter: u64,
}

impl PeriodicSpan {
    /// A span of `length` opened at `now`, with counter zero.
    pub fn new(length: u64, now: u64) -> (r: Self)
        ensures
            r == (PeriodicSpan { length, last_open: now, counter: 0 }),
    {
        PeriodicSpan { length, last_open: now, counter: 0 }
    }

    /// At `now`: once more than the span's length has elapsed since it
    /// opened, the span is reopened, with the next counter. Returns whether
    /// it was reopened.
    pub fn update(&mut self, now: u64) -> (r: bool)
        ensures
            final(self).length == old(self).length,
            r == (now > old(self).last_open && now - old(self).last_open > old(self).length),
            r ==> final(self).last_open == now,
            r ==> final(self).counter == if old(self).counter < u64::MAX {
                (old(self).counter + 1) as u64
            } else {
                old(self).counter
            },
            !r ==> *final(self) == *old(self),
    {
        if now > self.last_open && now - self.last_open > self.length {
            self.counter = self.counter.saturating_add(1);
            self.last_open = now;
            true
        } else {
            false
        }
    }
}

/// How workers talk to each other.
#[derive(Debug, Clone, PartialEq, Eq)]
pub enum CommPlan {
    /// All workers are threads of this process.
    Process { threads: usize },
    /// Workers are spread over processes at the given addresses.
    Cluster { threads: usize, process: usize, addresses: Vec<String> },
}

/// The fabric for a launch: threads of one process when no peer address
/// is given, else a networked cluster of the given processes.
pub fn comm_plan(addresses: Option<Vec<String>>, proc_id: usize, threads: usize) -> (r: CommPlan)
    ensures
        (addresses is None || addresses->Some_0@.len() == 0) ==> r == (CommPlan::Process { threads }),
        (addresses is Some && addresses->Some_0@.len() > 0) ==> (r matches CommPlan::Cluster {
            threads: t,
            process: p,
            addresses: a,
        } && t == threads && p == proc_id && a@ == addresses->Some_0@),
{
    match addresses {
        None => CommPlan::Process { threads },
        Some(a) => if a.len() == 0 {
            CommPlan::Process { threads }
        } else {
            CommPlan::Cluster { threads, process: proc_id, addresses: a }
        },
    }
}

/// How one worker thread ended.
#[derive(Debug, Clone, PartialEq, Eq)]
pub enum WorkerOutcome {
    /// It finished cleanly.
    Finished,
    /// It returned an error, with its message.
    Failed(String),
    /// It panicked.
    Panicked,
}

/// Why a cluster run failed.
#[derive(Debug, Clone, PartialEq, Eq)]
pub enum ClusterError {
    /// A worker returned this error.
    Worker(String),
    /// A worker panicked without a structured error.
    WorkerDied,
}

/// The overall result of outcomes `s`: the first failure among them, in
/// order, or success when every worker finished.
pub open spec fn overall_result(s: Seq<WorkerOutcome>) -> Result<(), ClusterError>
    decreases s.len(),
{
    if s.len() == 0 {
        Ok(())
    } else {
        match s[0] {
            WorkerOutcome::Finished => overall_result(s.drop_first()),
            WorkerOutcome::Failed(m) => Err(ClusterError::Worker(m)),
            WorkerOutcome::Panicked => Err(ClusterError::WorkerDied),
        }
    }
}

/// Joins the outcomes of all workers, in order: the first failure becomes
/// the cluster's result.
pub fn cluster_result(outcomes: Vec<WorkerOutcome>) -> (r: Result<(), ClusterError>)
    ensures
        r == overall_result(outcomes@),
{
    let ghost all = outcomes@;
    let mut rest = outcomes;
    while rest.len() > 0
        invariant
            all == outcomes@,
            overall_result(rest@) == overall_result(all),
        decreases rest.len(),
    {
        let ghost before = rest@;
        let first = rest.remove(0);
        assert(rest@ =~= before.drop_first());
        match first {
            WorkerOutcome::Finished => {},
            WorkerOutcome::Failed(m) => {
                return Err(ClusterError::Worker(m));
            },
            WorkerOutcome::Panicked => {
                return Err(ClusterError::WorkerDied);
            },
        }
    }
    Ok(())
}

/// The port of the first process of a local cluster; process `i` listens
/// on this port plus `i`.
pub const BASE_PORT: u16 = 2101;

/// How a launch is laid out.
#[derive(Debug, Clone, PartialEq, Eq)]
pub enum LaunchMode {
    /// One process runs every worker in the current thread.
    Single,
    /// This process is process `proc_id` of a local cluster whose
    /// processes listen on `ports`.
    Member { proc_id: usize, ports: Vec<u16>, workers_per_process: u8 },
    /// Spawn `processes` processes of `workers_per_process` workers each.
    Spawn { processes: u8, workers_per_process: u8 },
}

/// Why a launch cannot be laid out.
#[derive(Debug, Clone, Copy, PartialEq, Eq, Structural)]
pub enum LaunchError {
    /// A cluster launch without a process count.
    MissingProcesses,
    /// A cluster launch without a worker count per process.
    MissingWorkers,
}

/// The ports of a local cluster of `processes` processes: `BASE_PORT + i`
/// for process `i`.
pub fn cluster_ports(processes: u8) -> (r: Vec<u16>)
    ensures
        r@.len() == processes,
        forall|i: int| 0 <= i < processes ==> #[trigger] r@[i] == BASE_PORT + i,
{
    let mut out: Vec<u16> = Vec::new();
    let mut i: u8 = 0;
    while i < processes
        invariant
            i <= processes,
            out@.len() == i,
            forall|j: int| 0 <= j < i ==> #[trigger] out@[j] == BASE_PORT + j,
        decreases processes - i,
    {
        out.push(BASE_PORT + i as u16);
        i = i + 1;
    }
    out
}

/// The layout of a launch: a single process when nothing asks for a
/// cluster; else a member of a local cluster when this process was given
/// its id, or a spawner of the cluster's processes.
pub fn launch_mode(proc_id: Option<usize>, processes: Option<u8>, workers: Option<u8>) -> (r: Result<
    LaunchMode,
    LaunchError,
>)
    ensures
        proc_id is None && processes is None && workers is None ==> r == Ok::<
            LaunchMode,
            LaunchError,
        >(LaunchMode::Single),
        !(proc_id is None && processes is None && workers is None) ==> {
            &&& processes is None ==> r == Err::<LaunchMode, LaunchError>(
                LaunchError::MissingProcesses,
            )
            &&& processes is Some && workers is None ==> r == Err::<LaunchMode, LaunchError>(
                LaunchError::MissingWorkers,
            )
            &&& processes is Some && workers is Some && proc_id is None ==> r == Ok::<
                LaunchMode,
                LaunchError,
            >(
                LaunchMode::Spawn {
                    processes: processes->Some_0,
                    workers_per_process: workers->Some_0,
                },
            )
            &&& processes is Some && workers is Some && proc_id is Some ==> (r matches Ok(
                LaunchMode::Member { proc_id: p, ports, workers_per_process: w },
            ) && p == proc_id->Some_0 && w == workers->Some_0 && ports@.len()
                == processes->Some_0 && forall|i: int|
                0 <= i < ports@.len() ==> #[trigger] ports@[i] == BASE_PORT + i)
        },
{
    if proc_id.is_none() && processes.is_none() && workers.is_none() {
        return Ok(LaunchMode::Single);
    }
    let processes = match processes {
        Some(p) => p,
        None => {
            return Err(LaunchError::MissingProcesses);
        },
    };
    let workers_per_process = match workers {
        Some(w) => w,
        None => {
            return Err(LaunchError::MissingWorkers);
        },
    };
    match proc_id {
        Some(p) => Ok(
            LaunchMode::Member { proc_id: p, ports: cluster_ports(processes), workers_per_process },
        ),
        None => Ok(LaunchMode::Spawn { processes, workers_per_process }),
    }
}

/// What a panicking worker left behind.
#[derive(Debug, Clone, PartialEq, Eq)]
pub enum PanicPayload {
    /// A structured error raised by the engine, with its message.
    Error(String),
    /// A text message.
    Text(String),
    /// Nothing that can be read.
    Opaque,
}

/// The message reported for a worker panic: the payload's own message, or
/// a generic one when the payload cannot be read.
pub fn panic_message(p: PanicPayload) -> (r: String)
    ensures
        p matches PanicPayload::Error(m) ==> r@ == m@,
        p matches PanicPayload::Text(m) ==> r@ == m@,
        p is Opaque ==> r@ == "unknown error"@,
{
    match p {
        PanicPayload::Error(m) => m,
        PanicPayload::Text(m) => m,
        PanicPayload::Opaque => String::from_str("unknown error"),
    }
}

} // verus!
