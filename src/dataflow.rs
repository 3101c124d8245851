//! Turns an ordered list of abstract steps into a build plan: which
//! operators to build, in order, with the recovered state each stateful
//! step claims, after checking the dataflow's shape.
use vstd::prelude::*;

use crate::state::{claim_step, other_steps, step_part, FlowStateBytes, StateModel, StepId};

verus! {

/// How an input step reads.
#[derive(Debug, Clone, Copy, PartialEq, Eq, Structural)]
pub enum InputKind {
    /// Each worker owns disjoint partitions and resumes them from state.
    Partitioned,
    /// No partition affinity and no resume state.
    Dynamic,
    /// Not an input this engine knows how to build.
    Unknown,
}

/// How an output step writes.
#[derive(Debug, Clone, Copy, PartialEq, Eq, Structural)]
pub enum OutputKind {
    /// Recovery-aware, partitioned output.
    Partitioned,
    /// Stateless output.
    Dynamic,
    /// Not an output this engine knows how to build.
    Unknown,
}

/// One abstract step of a dataflow; the logic each step runs is held
/// elsewhere.
#[derive(Debug, Clone, PartialEq, Eq)]
pub enum Step {
    Input { step_id: StepId, kind: InputKind },
    MapEach,
    FlatMap,
    Filter,
    FilterMap,
    Inspect,
    InspectEpoch,
    Reduce { step_id: StepId },
    ReduceWindow { step_id: StepId },
    FoldWindow { step_id: StepId },
    CollectWindow { step_id: StepId },
    StatefulMap { step_id: StepId },
    Output { step_id: StepId, kind: OutputKind },
}

/// Why a dataflow cannot be built.
#[derive(Debug, Clone, Copy, PartialEq, Eq, Structural)]
pub enum BuildError {
    UnknownInputType,
    UnknownOutputType,
    NoInput,
    NoOutput,
}

/// One step of the plan, with the recovered state it claimed if it keeps
/// state.
pub struct PlannedStep {
    pub step: Step,
    pub resume: Option<FlowStateBytes>,
}

/// The operators to build, in order, and the state no step claimed.
pub struct DataflowPlan {
    pub steps: Vec<PlannedStep>,
    /// Recovered state that belongs to no step of the dataflow, from a
    /// step that was renamed or removed.
    pub unclaimed: FlowStateBytes,
    /// The number of change streams the stateful steps contribute.
    pub change_streams: usize,
}

/// The step id under which `st` keeps recoverable state, if it does.
pub open spec fn state_step_id(st: Step) -> Option<Seq<char>> {
    match st {
        Step::Input { step_id, kind } => if kind == InputKind::Partitioned {
            Some(step_id@)
        } else {
            None
        },
        Step::Reduce { step_id } => Some(step_id@),
        Step::ReduceWindow { step_id } => Some(step_id@),
        Step::FoldWindow { step_id } => Some(step_id@),
        Step::CollectWindow { step_id } => Some(step_id@),
        Step::StatefulMap { step_id } => Some(step_id@),
        Step::Output { step_id, kind } => if kind == OutputKind::Partitioned {
            Some(step_id@)
        } else {
            None
        },
        _ => None,
    }
}

/// `st` is an input of an unknown kind.
pub open spec fn unknown_input(st: Step) -> bool {
    st matches Step::Input { kind: InputKind::Unknown, .. }
}

/// `st` is an output of an unknown kind.
pub open spec fn unknown_output(st: Step) -> bool {
    st matches Step::Output { kind: OutputKind::Unknown, .. }
}

/// `st` is an input or output of an unknown kind.
pub open spec fn unknown_kind(st: Step) -> bool {
    unknown_input(st) || unknown_output(st)
}

/// No step of `s` before position `i` has an unknown kind.
pub open spec fn known_before(s: Seq<Step>, i: int) -> bool {
    forall|j: int| 0 <= j < i ==> !#[trigger] unknown_kind(s[j])
}

/// Some step of `s` is an input.
pub open spec fn has_input(s: Seq<Step>) -> bool {
    exists|i: int| 0 <= i < s.len() && #[trigger] s[i] is Input
}

/// Some step of `s` is an output.
pub open spec fn has_output(s: Seq<Step>) -> bool {
    exists|i: int| 0 <= i < s.len() && #[trigger] s[i] is Output
}

/// The recovered state left after the first `i` steps of `s` have claimed
/// theirs.
pub open spec fn unclaimed_after(m: StateModel, s: Seq<Step>, i: int) -> StateModel
    decreases i,
{
    if i <= 0 {
        m
    } else {
        let prev = unclaimed_after(m, s, i - 1);
        match state_step_id(s[i - 1]) {
            Some(id) => other_steps(prev, id),
            None => prev,
        }
    }
}

/// The number of the first `i` steps of `s` that keep state.
pub open spec fn stateful_count(s: Seq<Step>, i: int) -> nat
    decreases i,
{
    if i <= 0 {
        0
    } else {
        stateful_count(s, i - 1) + if state_step_id(s[i - 1]) is Some {
            1nat
        } else {
            0nat
        }
    }
}

/// The outcome of building `s`: the first step of an unknown kind fails the
/// build with its type error; then a dataflow needs an input and an output.
pub open spec fn build_outcome(s: Seq<Step>) -> Result<(), BuildError> {
    if exists|i: int| 0 <= i < s.len() && known_before(s, i) && #[trigger] unknown_input(s[i]) {
        Err(BuildError::UnknownInputType)
    } else if exists|i: int|
        0 <= i < s.len() && known_before(s, i) && #[trigger] unknown_output(s[i]) {
        Err(BuildError::UnknownOutputType)
    } else if !has_input(s) {
        Err(BuildError::NoInput)
    } else if !has_output(s) {
        Err(BuildError::NoOutput)
    } else {
        Ok(())
    }
}

/// Plans the dataflow `steps`: each step that keeps state claims its
/// slice of `resume_state` by its step id, and what no step claims is
/// handed back for a warning. Fails on the first input or output of an
/// unknown kind, and on a dataflow without an input or without an output.
pub fn plan_dataflow(steps: Vec<Step>, resume_state: FlowStateBytes) -> (r: Result<
    DataflowPlan,
    BuildError,
>)
    requires
        resume_state.wf(),
    ensures
        r is Ok <==> build_outcome(steps@) is Ok,
        r is Err ==> build_outcome(steps@) == Err::<(), BuildError>(r->Err_0),
        r is Ok ==> {
            let plan = r->Ok_0;
            &&& plan.steps@.len() == steps@.len()
            &&& plan.unclaimed.wf()
            &&& plan.unclaimed@ == unclaimed_after(resume_state@, steps@, steps@.len() as int)
            &&& plan.change_streams == stateful_count(steps@, steps@.len() as int)
            &&& forall|i: int|
                0 <= i < steps@.len() ==> {
                    &&& (#[trigger] plan.steps@[i]).step == steps@[i]
                    &&& state_step_id(steps@[i]) is None ==> plan.steps@[i].resume is None
                    &&& state_step_id(steps@[i]) is Some ==> {
                        &&& plan.steps@[i].resume is Some
                        &&& plan.steps@[i].resume->Some_0.wf()
                        &&& plan.steps@[i].resume->Some_0@ == step_part(
                            unclaimed_after(resume_state@, steps@, i),
                            state_step_id(steps@[i])->Some_0,
                        )
                    }
                }
        },
{
    let ghost all = steps@;
    let ghost m0 = resume_state@;
    let mut rest = steps;
    let mut state = resume_state;
    let mut planned: Vec<PlannedStep> = Vec::new();
    let mut inputs: usize = 0;
    let mut outputs: usize = 0;
    let mut changes: usize = 0;
    let total: usize = rest.len();
    let mut done: usize = 0;
    while rest.len() > 0
        invariant
            all == steps@,
            all.len() == total,
            done <= total,
            rest@ == all.skip(done as int),
            planned@.len() == done,
            state.wf(),
            state@ == unclaimed_after(m0, all, done as int),
            changes == stateful_count(all, done as int),
            changes <= done,
            inputs <= done,
            outputs <= done,
            known_before(all, done as int),
            (inputs > 0) <==> exists|i: int| 0 <= i < done && #[trigger] all[i] is Input,
            (outputs > 0) <==> exists|i: int| 0 <= i < done && #[trigger] all[i] is Output,
            forall|i: int|
                0 <= i < done ==> {
                    &&& (#[trigger] planned@[i]).step == all[i]
                    &&& state_step_id(all[i]) is None ==> planned@[i].resume is None
                    &&& state_step_id(all[i]) is Some ==> {
                        &&& planned@[i].resume is Some
                        &&& planned@[i].resume->Some_0.wf()
                        &&& planned@[i].resume->Some_0@ == step_part(
                            unclaimed_after(m0, all, i),
                            state_step_id(all[i])->Some_0,
                        )
                    }
                },
        decreases rest.len(),
    {
        let step = rest.remove(0);
        assert(step == all[done as int]);
        let ghost before = state@;
        let claim: Option<StepId> = match &step {
            Step::Input { step_id, kind } => {
                match kind {
                    InputKind::Unknown => {
                        assert(known_before(all, done as int) && unknown_input(all[done as int]));
                        proof {
                            lemma_first_unknown_input(all, done as int);
                        }
                        return Err(BuildError::UnknownInputType);
                    },
                    InputKind::Partitioned => {
                        inputs = inputs + 1;
                        Some(step_id.copy())
                    },
                    InputKind::Dynamic => {
                        inputs = inputs + 1;
                        None
                    },
                }
            },
            Step::Output { step_id, kind } => {
                match kind {
                    OutputKind::Unknown => {
                        assert(known_before(all, done as int) && unknown_output(all[done as int]));
                        proof {
                            lemma_first_unknown_output(all, done as int);
                        }
                        return Err(BuildError::UnknownOutputType);
                    },
                    OutputKind::Partitioned => {
                        outputs = outputs + 1;
                        Some(step_id.copy())
                    },
                    OutputKind::Dynamic => {
                        outputs = outputs + 1;
                        None
                    },
                }
            },
            Step::Reduce { step_id } => Some(step_id.copy()),
            Step::ReduceWindow { step_id } => Some(step_id.copy()),
            Step::FoldWindow { step_id } => Some(step_id.copy()),
            Step::CollectWindow { step_id } => Some(step_id.copy()),
            Step::StatefulMap { step_id } => Some(step_id.copy()),
            _ => None,
        };
        let resume = match claim {
            Some(id) => {
                changes = changes + 1;
                Some(claim_step(&mut state, &id))
            },
            None => None,
        };
        planned.push(PlannedStep { step, resume });
        done = done + 1;
        assert(rest@ =~= all.skip(done as int));
    }
    assert(done == all.len());
    proof {
        lemma_all_known(all);
    }
    if inputs == 0 {
        return Err(BuildError::NoInput);
    }
    if outputs == 0 {
        return Err(BuildError::NoOutput);
    }
    Ok(DataflowPlan { steps: planned, unclaimed: state, change_streams: changes })
}

/// Where no step has an unknown kind, the outcome depends only on the
/// presence of an input and an output.
proof fn lemma_all_known(s: Seq<Step>)
    requires
        known_before(s, s.len() as int),
    ensures
        build_outcome(s) == (if !has_input(s) {
            Err::<(), BuildError>(BuildError::NoInput)
        } else if !has_output(s) {
            Err::<(), BuildError>(BuildError::NoOutput)
        } else {
            Ok::<(), BuildError>(())
        }),
{
    assert forall|i: int| 0 <= i < s.len() implies !#[trigger] unknown_input(s[i]) by {
        assert(!unknown_kind(s[i]));
    }
    assert forall|i: int| 0 <= i < s.len() implies !#[trigger] unknown_output(s[i]) by {
        assert(!unknown_kind(s[i]));
    }
}

/// A dataflow without an input, or without an output, fails to build; one
/// with both, and no input or output of an unknown kind, builds.
pub proof fn build_needs_input_and_output(s: Seq<Step>)
    ensures
        !has_input(s) ==> build_outcome(s) is Err,
        !has_output(s) ==> build_outcome(s) is Err,
        known_before(s, s.len() as int) && has_input(s) && has_output(s) ==> build_outcome(s) is Ok,
{
    if known_before(s, s.len() as int) {
        lemma_all_known(s);
    }
}

/// The first step of an unknown kind, an input, decides the outcome.
proof fn lemma_first_unknown_input(s: Seq<Step>, i: int)
    requires
        0 <= i < s.len(),
        known_before(s, i),
        unknown_input(s[i]),
    ensures
        build_outcome(s) == Err::<(), BuildError>(BuildError::UnknownInputType),
{
}

/// The first step of an unknown kind, an output, decides the outcome.
proof fn lemma_first_unknown_output(s: Seq<Step>, i: int)
    requires
        0 <= i < s.len(),
        known_before(s, i),
        unknown_output(s[i]),
    ensures
        build_outcome(s) == Err::<(), BuildError>(BuildError::UnknownOutputType),
{
    assert forall|j: int|
        0 <= j < s.len() && known_before(s, j) implies !#[trigger] unknown_input(s[j]) by {
        if j < i {
            assert(!unknown_kind(s[j]));
        } else if j == i {
            assert(s[i] is Output);
        } else {
            assert(!unknown_kind(s[i]));
        }
    }
}

} // verus!
