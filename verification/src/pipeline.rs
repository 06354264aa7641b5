//! Decision core of the grading pipeline. One submission attempt is a small
//! state machine: prepare a workspace, run the compile stage, on success run
//! the run stage, and in every branch complete the submission exactly once
//! with a report body and a grade. The caller owns the outside work (the
//! filesystem, the subprocesses, persistence); it feeds each outcome back in
//! as an [`Event`] and performs the returned [`Action`].

use vstd::prelude::*;
use vstd::utf8::{decode_utf8, valid_utf8};

use crate::output::{render, spec_fmt};
use crate::report::{parse_report, parse_text};

verus! {

/// What the process runner reports for one finished stage: the captured
/// standard output, and whether the process exited successfully. A stage that
/// overran its timeout is reported as an unsuccessful exit with whatever
/// output it had produced.
pub struct StageOutput {
    pub stdout: Vec<u8>,
    pub exit_success: bool,
}

/// Mathematical form of [`StageOutput`].
pub ghost struct StageOutputModel {
    pub stdout: Seq<u8>,
    pub exit_success: bool,
}

impl View for StageOutput {
    type V = StageOutputModel;

    open spec fn view(&self) -> StageOutputModel {
        StageOutputModel { stdout: self.stdout@, exit_success: self.exit_success }
    }
}

/// The text the pipeline reads from captured stage output: the UTF-8 decoding
/// when the bytes are valid, and nothing otherwise.
pub open spec fn decoded_output(b: Seq<u8>) -> Seq<char> {
    if valid_utf8(b) {
        decode_utf8(b)
    } else {
        Seq::empty()
    }
}

/// Relies on core::str::from_utf8: it returns Ok exactly on valid UTF-8 input,
/// borrowing text with those very bytes; invalid input is read as empty text.
#[verifier::external_body]
fn stdout_text(b: &Vec<u8>) -> (r: String)
    ensures
        r@ == decoded_output(b@),
{
    match core::str::from_utf8(b.as_slice()) {
        Ok(s) => s.to_string(),
        Err(_) => String::new(),
    }
}

/// Where one submission attempt stands.
#[derive(Clone, Copy, Debug, PartialEq, Eq, Structural)]
pub enum State {
    /// The workspace is being prepared (harness unpacked, file written).
    AwaitingPrepare,
    /// The compile stage is running.
    AwaitingCompile,
    /// The run stage is running.
    AwaitingRun,
    /// The submission has been completed; nothing further happens.
    Done,
}

/// The outcome of the outside work the pipeline last asked for.
pub enum Event {
    /// The workspace was prepared.
    Prepared,
    /// The harness could not be unpacked, or the submitted file not written.
    PrepareFailed,
    /// The compile stage process ran to an exit (or was timed out).
    CompileFinished(StageOutput),
    /// The compile script could not be started.
    CompileLaunchFailed,
    /// The run stage process ran to an exit (or was timed out).
    RunFinished(StageOutput),
    /// The run script could not be started.
    RunLaunchFailed,
}

/// Mathematical form of [`Event`].
pub ghost enum EventModel {
    Prepared,
    PrepareFailed,
    CompileFinished(StageOutputModel),
    CompileLaunchFailed,
    RunFinished(StageOutputModel),
    RunLaunchFailed,
}

impl View for Event {
    type V = EventModel;

    open spec fn view(&self) -> EventModel {
        match self {
            Event::Prepared => EventModel::Prepared,
            Event::PrepareFailed => EventModel::PrepareFailed,
            Event::CompileFinished(o) => EventModel::CompileFinished(o@),
            Event::CompileLaunchFailed => EventModel::CompileLaunchFailed,
            Event::RunFinished(o) => EventModel::RunFinished(o@),
            Event::RunLaunchFailed => EventModel::RunLaunchFailed,
        }
    }
}

/// What completes a submission: the persisted report body and the grade.
pub struct Completion {
    pub report: String,
    pub grade: i32,
}

/// What the caller is to do next.
pub enum Action {
    /// Start the compile stage in the workspace.
    RunCompile,
    /// Start the run stage in the workspace.
    RunRun,
    /// Persist this completion, then release the workspace.
    Complete(Completion),
}

/// Mathematical form of [`Action`].
pub ghost enum ActionModel {
    RunCompile,
    RunRun,
    Complete { report: Seq<char>, grade: int },
}

impl View for Action {
    type V = ActionModel;

    open spec fn view(&self) -> ActionModel {
        match self {
            Action::RunCompile => ActionModel::RunCompile,
            Action::RunRun => ActionModel::RunRun,
            Action::Complete(c) => ActionModel::Complete {
                report: c.report@,
                grade: c.grade as int,
            },
        }
    }
}

/// Which events a state can answer: exactly the outcomes of the work its
/// action asked for.
pub open spec fn expects(s: State, e: EventModel) -> bool {
    match (s, e) {
        (State::AwaitingPrepare, EventModel::Prepared) => true,
        (State::AwaitingPrepare, EventModel::PrepareFailed) => true,
        (State::AwaitingCompile, EventModel::CompileFinished(_)) => true,
        (State::AwaitingCompile, EventModel::CompileLaunchFailed) => true,
        (State::AwaitingRun, EventModel::RunFinished(_)) => true,
        (State::AwaitingRun, EventModel::RunLaunchFailed) => true,
        _ => false,
    }
}

/// The pipeline's whole decision rule. A prepared workspace starts the compile
/// stage. A successful compile exit starts the run stage, whose output is
/// decoded, parsed and rendered into the completion. An unsuccessful compile
/// exit completes with the raw compile output and grade 0, and the run stage
/// is never started. Every failure to prepare or to launch completes with an
/// empty report and grade 0.
pub open spec fn spec_step(s: State, e: EventModel) -> (State, ActionModel) {
    match (s, e) {
        (State::AwaitingPrepare, EventModel::Prepared) => (
            State::AwaitingCompile,
            ActionModel::RunCompile,
        ),
        (State::AwaitingPrepare, EventModel::PrepareFailed) => (
            State::Done,
            ActionModel::Complete { report: Seq::empty(), grade: 0 },
        ),
        (State::AwaitingCompile, EventModel::CompileFinished(o)) => {
            if o.exit_success {
                (State::AwaitingRun, ActionModel::RunRun)
            } else {
                (
                    State::Done,
                    ActionModel::Complete { report: decoded_output(o.stdout), grade: 0 },
                )
            }
        },
        (State::AwaitingCompile, EventModel::CompileLaunchFailed) => (
            State::Done,
            ActionModel::Complete { report: Seq::empty(), grade: 0 },
        ),
        (State::AwaitingRun, EventModel::RunFinished(o)) => (
            State::Done,
            ActionModel::Complete {
                report: spec_fmt(decoded_output(o.stdout)),
                grade: parse_text(decoded_output(o.stdout)).grade,
            },
        ),
        (State::AwaitingRun, EventModel::RunLaunchFailed) => (
            State::Done,
            ActionModel::Complete { report: Seq::empty(), grade: 0 },
        ),
        _ => (State::Done, ActionModel::Complete { report: Seq::empty(), grade: 0 }),
    }
}

/// One decision of the grading pipeline.
pub fn step(s: State, e: Event) -> (r: (State, Action))
    requires
        expects(s, e@),
    ensures
        r.0 == spec_step(s, e@).0,
        r.1@ == spec_step(s, e@).1,
{
    match (s, e) {
        (State::AwaitingPrepare, Event::Prepared) => (State::AwaitingCompile, Action::RunCompile),
        (State::AwaitingCompile, Event::CompileFinished(o)) => {
            if o.exit_success {
                (State::AwaitingRun, Action::RunRun)
            } else {
                let report = stdout_text(&o.stdout);
                (State::Done, Action::Complete(Completion { report, grade: 0 }))
            }
        },
        (State::AwaitingRun, Event::RunFinished(o)) => {
            let text = stdout_text(&o.stdout);
            let rep = parse_report(text.as_str());
            let body = render(&rep.records);
            (State::Done, Action::Complete(Completion { report: body, grade: rep.grade }))
        },
        _ => (State::Done, Action::Complete(Completion { report: String::new(), grade: 0 })),
    }
}

/// The state an attempt stands in after answering `evs` from `s`; an event the
/// state does not expect stops consumption.
pub open spec fn trace_state(s: State, evs: Seq<EventModel>) -> State
    decreases evs.len(),
{
    if evs.len() == 0 || !expects(s, evs[0]) {
        s
    } else {
        trace_state(spec_step(s, evs[0]).0, evs.drop_first())
    }
}

/// The actions an attempt takes while answering `evs` from `s`.
pub open spec fn trace_actions(s: State, evs: Seq<EventModel>) -> Seq<ActionModel>
    decreases evs.len(),
{
    if evs.len() == 0 || !expects(s, evs[0]) {
        Seq::empty()
    } else {
        seq![spec_step(s, evs[0]).1] + trace_actions(spec_step(s, evs[0]).0, evs.drop_first())
    }
}

/// How many actions of a trace complete the submission.
pub open spec fn count_completions(acts: Seq<ActionModel>) -> int
    decreases acts.len(),
{
    if acts.len() == 0 {
        0
    } else {
        (if acts[0] is Complete {
            1int
        } else {
            0int
        }) + count_completions(acts.drop_first())
    }
}

/// How many actions of a trace start the compile stage.
pub open spec fn count_compile_starts(acts: Seq<ActionModel>) -> int
    decreases acts.len(),
{
    if acts.len() == 0 {
        0
    } else {
        (if acts[0] is RunCompile {
            1int
        } else {
            0int
        }) + count_compile_starts(acts.drop_first())
    }
}

/// How many actions of a trace start the run stage.
pub open spec fn count_run_starts(acts: Seq<ActionModel>) -> int
    decreases acts.len(),
{
    if acts.len() == 0 {
        0
    } else {
        (if acts[0] is RunRun {
            1int
        } else {
            0int
        }) + count_run_starts(acts.drop_first())
    }
}

/// How far along an attempt a state lies; every expected event strictly
/// advances it.
pub open spec fn rank(s: State) -> int {
    match s {
        State::AwaitingPrepare => 0,
        State::AwaitingCompile => 1,
        State::AwaitingRun => 2,
        State::Done => 3,
    }
}

/// Law: every expected event strictly advances the attempt, and an attempt
/// completes exactly when it reaches its final state — each step emits a
/// completion if and only if it moves to `Done`.
pub proof fn lemma_step_advances(s: State, e: EventModel)
    requires
        expects(s, e),
    ensures
        rank(spec_step(s, e).0) > rank(s),
        (spec_step(s, e).1 is Complete <==> spec_step(s, e).0 == State::Done),
{
}

/// Law: the run stage is started only on a compile stage that finished with a
/// successful exit — a compile failure means the run stage is never invoked.
pub proof fn lemma_run_starts_need_compile_success(s: State, e: EventModel)
    ensures
        spec_step(s, e).1 is RunRun ==> s == State::AwaitingCompile && (e matches
            EventModel::CompileFinished(o) && o.exit_success),
{
}

/// Law: a compile stage with an unsuccessful exit is terminal — the
/// submission is completed at once with the captured compile output as the
/// report body and grade 0.
pub proof fn lemma_compile_failure_terminal(o: StageOutputModel)
    requires
        !o.exit_success,
    ensures
        spec_step(State::AwaitingCompile, EventModel::CompileFinished(o)).0 == State::Done,
        spec_step(State::AwaitingCompile, EventModel::CompileFinished(o)).1
            == (ActionModel::Complete { report: decoded_output(o.stdout), grade: 0 }),
{
}

/// Law: every failure — the workspace not prepared, or a stage that could not
/// be launched — still completes the submission, with an empty report and
/// grade 0.
pub proof fn lemma_failures_complete(s: State, e: EventModel)
    requires
        expects(s, e),
        (e is PrepareFailed || e is CompileLaunchFailed || e is RunLaunchFailed),
    ensures
        spec_step(s, e).0 == State::Done,
        spec_step(s, e).1 == (ActionModel::Complete { report: Seq::<char>::empty(), grade: 0 }),
{
}

/// Law: a finished run stage completes the submission with the decoded
/// output's rendered records as the report body and its parsed grade.
pub proof fn lemma_run_completion_is_parsed(o: StageOutputModel)
    ensures
        spec_step(State::AwaitingRun, EventModel::RunFinished(o)).0 == State::Done,
        spec_step(State::AwaitingRun, EventModel::RunFinished(o)).1 == (ActionModel::Complete {
            report: spec_fmt(decoded_output(o.stdout)),
            grade: parse_text(decoded_output(o.stdout)).grade,
        }),
{
}

/// Law: over any event sequence an attempt completes at most once, completes
/// exactly once whenever it reaches its final state, starts each stage at
/// most once — and not at all from a state already past it — and takes no
/// action after completing: a completion can only be the trace's last action.
pub proof fn lemma_complete_exactly_once(s: State, evs: Seq<EventModel>)
    ensures
        count_completions(trace_actions(s, evs)) <= 1,
        trace_state(s, evs) == State::Done && s != State::Done ==> count_completions(
            trace_actions(s, evs),
        ) == 1,
        s == State::Done ==> trace_actions(s, evs) == Seq::<ActionModel>::empty(),
        count_compile_starts(trace_actions(s, evs)) <= if rank(s) <= 0 {
            1int
        } else {
            0int
        },
        count_run_starts(trace_actions(s, evs)) <= if rank(s) <= 1 {
            1int
        } else {
            0int
        },
        (forall|i: int|
            0 <= i < trace_actions(s, evs).len() && trace_actions(s, evs)[i] is Complete ==> i
                == trace_actions(s, evs).len() - 1),
    decreases evs.len(),
{
    if evs.len() == 0 || !expects(s, evs[0]) {
        assert(trace_actions(s, evs) =~= Seq::<ActionModel>::empty());
    } else {
        let e = evs[0];
        let s2 = spec_step(s, e).0;
        let a = spec_step(s, e).1;
        let tail = trace_actions(s2, evs.drop_first());
        lemma_step_advances(s, e);
        lemma_complete_exactly_once(s2, evs.drop_first());
        assert(trace_actions(s, evs) == seq![a] + tail);
        assert(trace_actions(s, evs).drop_first() =~= tail);
        if a is Complete {
            assert(s2 == State::Done);
            assert(tail =~= Seq::<ActionModel>::empty());
        }
        assert forall|i: int|
            0 <= i < trace_actions(s, evs).len() && trace_actions(s, evs)[i] is Complete implies i
            == trace_actions(s, evs).len() - 1 by {
            if i > 0 {
                assert(trace_actions(s, evs)[i] == tail[i - 1]);
            }
        }
    }
}

/// No stage is started from a state already past it: once the compile stage
/// has begun, no trace action starts it again, and once the run stage has
/// begun, none starts either stage.
proof fn lemma_no_stage_starts_past(s: State, evs: Seq<EventModel>)
    ensures
        rank(s) >= 1 ==> (forall|i: int|
            0 <= i < trace_actions(s, evs).len() ==> !(trace_actions(s, evs)[i] is RunCompile)),
        rank(s) >= 2 ==> (forall|i: int|
            0 <= i < trace_actions(s, evs).len() ==> !(trace_actions(s, evs)[i] is RunRun)),
    decreases evs.len(),
{
    if evs.len() == 0 || !expects(s, evs[0]) {
    } else {
        let e = evs[0];
        let s2 = spec_step(s, e).0;
        let a = spec_step(s, e).1;
        let tail = trace_actions(s2, evs.drop_first());
        lemma_step_advances(s, e);
        lemma_no_stage_starts_past(s2, evs.drop_first());
        assert(trace_actions(s, evs) == seq![a] + tail);
        assert forall|i: int| 0 < i < trace_actions(s, evs).len() implies trace_actions(s, evs)[i]
            == tail[i - 1] by {}
    }
}

/// Law: per attempt the stages run strictly in order, never interleaved —
/// from the start of an attempt, only the very first action can start the
/// compile stage, and only the second can start the run stage, and then only
/// right after a compile start.
pub proof fn lemma_stages_strictly_ordered(evs: Seq<EventModel>)
    ensures
        (forall|i: int|
            0 <= i < trace_actions(State::AwaitingPrepare, evs).len() && trace_actions(
                State::AwaitingPrepare,
                evs,
            )[i] is RunCompile ==> i == 0),
        (forall|i: int|
            0 <= i < trace_actions(State::AwaitingPrepare, evs).len() && #[trigger] trace_actions(
                State::AwaitingPrepare,
                evs,
            )[i] is RunRun ==> i == 1 && trace_actions(State::AwaitingPrepare, evs)[0]
                is RunCompile),
{
    let s0 = State::AwaitingPrepare;
    let acts = trace_actions(s0, evs);
    if evs.len() == 0 || !expects(s0, evs[0]) {
    } else {
        let e0 = evs[0];
        let s1 = spec_step(s0, e0).0;
        let a0 = spec_step(s0, e0).1;
        let evs1 = evs.drop_first();
        let tail1 = trace_actions(s1, evs1);
        lemma_step_advances(s0, e0);
        lemma_no_stage_starts_past(s1, evs1);
        assert(acts == seq![a0] + tail1);
        assert forall|i: int| 0 < i < acts.len() implies acts[i] == tail1[i - 1] by {}
        if evs1.len() == 0 || !expects(s1, evs1[0]) {
        } else {
            let e1 = evs1[0];
            let s2 = spec_step(s1, e1).0;
            let a1 = spec_step(s1, e1).1;
            let tail2 = trace_actions(s2, evs1.drop_first());
            lemma_step_advances(s1, e1);
            lemma_no_stage_starts_past(s2, evs1.drop_first());
            assert(tail1 == seq![a1] + tail2);
            assert forall|i: int| 0 < i < tail1.len() implies tail1[i] == tail2[i - 1] by {}
        }
    }
}

} // verus!
