use bytewax::dataflow::{plan_dataflow, BuildError, InputKind, OutputKind, Step};
use bytewax::progress::{ExecutionId, ResumeFrom};
use bytewax::runtime::{
    cluster_ports, cluster_result, comm_plan, launch_mode, next_action, next_phase, panic_message,
    ClusterError, CommPlan, LaunchError, LaunchMode, LoopAction, PanicPayload, PeriodicSpan,
    WorkerEvent, WorkerOutcome, WorkerPhase,
};
use bytewax::state::{StateBytes, StateKey, StepId};
use bytewax::store::KvStore;

fn s(x: &str) -> String {
    x.to_string()
}

fn id(x: &str) -> StepId {
    StepId(s(x))
}

fn input(kind: InputKind) -> Step {
    Step::Input { step_id: id("in"), kind }
}

fn output(kind: OutputKind) -> Step {
    Step::Output { step_id: id("out"), kind }
}

#[test]
fn build_needs_an_input() {
    let r = plan_dataflow(vec![Step::MapEach, output(OutputKind::Dynamic)], KvStore::new());
    assert_eq!(r.err(), Some(BuildError::NoInput));
}

#[test]
fn build_needs_an_output() {
    let r = plan_dataflow(vec![input(InputKind::Dynamic), Step::Filter], KvStore::new());
    assert_eq!(r.err(), Some(BuildError::NoOutput));
}

#[test]
fn build_fails_on_empty_flow() {
    let r = plan_dataflow(vec![], KvStore::new());
    assert_eq!(r.err(), Some(BuildError::NoInput));
}

#[test]
fn build_rejects_unknown_kinds() {
    let r = plan_dataflow(vec![input(InputKind::Unknown), output(OutputKind::Dynamic)], KvStore::new());
    assert_eq!(r.err(), Some(BuildError::UnknownInputType));
    let r = plan_dataflow(vec![input(InputKind::Dynamic), output(OutputKind::Unknown)], KvStore::new());
    assert_eq!(r.err(), Some(BuildError::UnknownOutputType));
}

#[test]
fn build_with_input_and_output_claims_state() {
    let mut state: KvStore<StateKey, StateBytes> = KvStore::new();
    state.insert(StateKey(id("red"), s("k")), StateBytes(vec![1]));
    state.insert(StateKey(id("in"), s("p0")), StateBytes(vec![2]));
    state.insert(StateKey(id("gone"), s("k")), StateBytes(vec![3]));
    let steps = vec![
        input(InputKind::Partitioned),
        Step::MapEach,
        Step::Reduce { step_id: id("red") },
        output(OutputKind::Dynamic),
    ];
    let plan = match plan_dataflow(steps, state) {
        Ok(p) => p,
        Err(e) => panic!("unexpected build error {:?}", e),
    };
    assert_eq!(plan.steps.len(), 4);
    assert_eq!(plan.change_streams, 2);
    let claimed = plan.steps[2].resume.as_ref().unwrap();
    assert_eq!(claimed.get(&StateKey(id("red"), s("k"))), Some(&StateBytes(vec![1])));
    assert!(plan.steps[1].resume.is_none());
    assert_eq!(plan.steps[0].resume.as_ref().unwrap().len(), 1);
    assert_eq!(plan.unclaimed.len(), 1);
    assert!(!plan.unclaimed.is_empty());
}

#[test]
fn worker_phases_run_in_order() {
    let rf = ResumeFrom(ExecutionId(2), 7);
    let p = next_phase(WorkerPhase::LoadingProgress, WorkerEvent::ProgressLoaded(rf));
    assert_eq!(p, WorkerPhase::LoadingState(rf));
    let p = next_phase(p, WorkerEvent::StateLoaded);
    assert_eq!(p, WorkerPhase::Producing(rf));
    let p = next_phase(p, WorkerEvent::ProductionDone);
    assert_eq!(p, WorkerPhase::ShuttingDown);
    let p = next_phase(p, WorkerEvent::ShutDown);
    assert_eq!(p, WorkerPhase::Done);
    assert_eq!(next_phase(WorkerPhase::Producing(rf), WorkerEvent::Fault), WorkerPhase::Failed);
    assert_eq!(next_phase(WorkerPhase::LoadingProgress, WorkerEvent::StateLoaded), WorkerPhase::Failed);
}

#[test]
fn polling_loop_decisions() {
    assert_eq!(next_action(true, false, true), LoopAction::Stop);
    assert_eq!(next_action(false, true, false), LoopAction::Stop);
    assert_eq!(next_action(false, false, true), LoopAction::Interrupt);
    assert_eq!(next_action(false, false, false), LoopAction::Step);
}

#[test]
fn periodic_span_reopens_after_length() {
    let mut span = PeriodicSpan::new(10_000, 500);
    assert!(!span.update(10_500));
    assert_eq!(span.counter, 0);
    assert!(span.update(10_501));
    assert_eq!(span.counter, 1);
    assert_eq!(span.last_open, 10_501);
    assert!(!span.update(100));
}

#[test]
fn comm_plan_by_addresses() {
    assert_eq!(comm_plan(None, 0, 2), CommPlan::Process { threads: 2 });
    assert_eq!(comm_plan(Some(vec![]), 1, 3), CommPlan::Process { threads: 3 });
    let addrs = vec![s("h:1"), s("h:2")];
    assert_eq!(
        comm_plan(Some(addrs.clone()), 1, 4),
        CommPlan::Cluster { threads: 4, process: 1, addresses: addrs }
    );
}

#[test]
fn first_worker_error_wins() {
    assert_eq!(cluster_result(vec![WorkerOutcome::Finished, WorkerOutcome::Finished]), Ok(()));
    assert_eq!(cluster_result(vec![]), Ok(()));
    assert_eq!(
        cluster_result(vec![
            WorkerOutcome::Finished,
            WorkerOutcome::Failed(s("boom")),
            WorkerOutcome::Panicked,
        ]),
        Err(ClusterError::Worker(s("boom")))
    );
    assert_eq!(
        cluster_result(vec![WorkerOutcome::Panicked, WorkerOutcome::Failed(s("x"))]),
        Err(ClusterError::WorkerDied)
    );
}

#[test]
fn launch_layouts() {
    assert_eq!(launch_mode(None, None, None), Ok(LaunchMode::Single));
    assert_eq!(launch_mode(None, None, Some(2)), Err(LaunchError::MissingProcesses));
    assert_eq!(launch_mode(None, Some(2), None), Err(LaunchError::MissingWorkers));
    assert_eq!(
        launch_mode(None, Some(3), Some(2)),
        Ok(LaunchMode::Spawn { processes: 3, workers_per_process: 2 })
    );
    assert_eq!(
        launch_mode(Some(1), Some(2), Some(4)),
        Ok(LaunchMode::Member { proc_id: 1, ports: vec![2101, 2102], workers_per_process: 4 })
    );
    assert_eq!(cluster_ports(3), vec![2101, 2102, 2103]);
    assert!(cluster_ports(0).is_empty());
}

#[test]
fn panic_messages() {
    assert_eq!(panic_message(PanicPayload::Error(s("bad step"))), s("bad step"));
    assert_eq!(panic_message(PanicPayload::Text(s("oops"))), s("oops"));
    assert_eq!(panic_message(PanicPayload::Opaque), s("unknown error"));
}
