//! The repair of one file by the plan of a model: the plan is asked for,
//! accepted or refused, tried against the policy, and only then carried out.

use crate::agent::{
    configure_steps, configured_steps, fix_plan, fix_specs, indices_below, lemma_add_below,
    lemma_configure_below, repair_specs, RepoFixPlan, RepoFixPlanView, RepoFixResult,
    RepoFixResultView,
};
use crate::audit::{hash_text, text_hash};
use crate::exec::{
    begin_llm_step, end_llm_step, execution_error_text, llm_begun, llm_ended, refused_plan,
    ExecutionError, ExecutionErrorView,
};
use crate::history::{new_runs_have_not_begun, one_more_event};
use crate::model::{
    answered_run, request_payload, ModelError, ModelErrorView, ModelRequest, ModelRequestView,
    ModelResponse, ModelResponseView,
};
use crate::path::PathStyle;
use crate::plan::{plan_error_text, plan_from, AgentPlan, AgentPlanView, PlanError, PlanErrorView};
use crate::plan_text::plan_json;
use crate::run::{step_sequence, StepDefinition};
use crate::sandbox::{
    call_resumed, call_started, reply_mismatch, sandbox_error_text, workspace_policy,
    workspace_root, Policy, PolicyView, SandboxError, SandboxErrorView, ToolActionView, ToolCall,
    ToolCallView, ToolProgress, ToolProgressView, ToolRouter,
};
use crate::session::{
    resume_run_with_pause, session_fits, session_next, session_started, Session, SessionReply,
    SessionReplyView, SessionRequest, SessionRequestView, SessionView,
};
use crate::store::{
    completed_run, created_run, expanded_run, lemma_step_position, step_position, with_event,
    EventView, RunRecord, RunView, StoreErrorView,
};
use crate::text::{opt_view, res_view, views};
use vstd::prelude::*;
use vstd::string::StringExecFns;

verus! {

/// What a model is to repair.
#[derive(Debug)]
pub struct PlanOrder {
    pub run_id: String,
    pub workspace: String,
    pub request: ModelRequest,
    pub pause_ms: u64,
    pub style: PathStyle,
}

/// The mathematical form of what a model is to repair.
pub struct PlanOrderView {
    pub run_id: Seq<char>,
    pub workspace: Seq<char>,
    pub request: ModelRequestView,
    pub pause_ms: nat,
    pub style: PathStyle,
}

impl View for PlanOrder {
    type V = PlanOrderView;

    open spec fn view(&self) -> PlanOrderView {
        PlanOrderView {
            run_id: self.run_id@,
            workspace: self.workspace@,
            request: self.request@,
            pause_ms: self.pause_ms as nat,
            style: self.style,
        }
    }
}

/// A repair that a model planned, with the text it planned it in.
#[derive(Debug)]
pub struct PlannedFix {
    pub plan: RepoFixPlan,
    pub text: String,
}

/// The mathematical form of a planned repair.
pub struct PlannedFixView {
    pub plan: RepoFixPlanView,
    pub text: Seq<char>,
}

impl View for PlannedFix {
    type V = PlannedFixView;

    open spec fn view(&self) -> PlannedFixView {
        PlannedFixView { plan: self.plan@, text: self.text@ }
    }
}

/// The trials of a planned repair: which one is on, and the first fault.
#[derive(Debug)]
pub struct Trials {
    pub round: u8,
    pub fault: Option<SandboxError>,
}

/// The mathematical form of the trials of a planned repair.
pub struct TrialsView {
    pub round: nat,
    pub fault: Option<SandboxErrorView>,
}

impl View for Trials {
    type V = TrialsView;

    open spec fn view(&self) -> TrialsView {
        TrialsView { round: self.round as nat, fault: opt_view(self.fault) }
    }
}

/// How far a planned repair has come.
#[derive(Debug)]
pub enum PlannerPhase {
    Opening,
    Planning { record: RunRecord },
    Reopening { record: RunRecord, fix: PlannedFix },
    Trying {
        record: RunRecord,
        fix: PlannedFix,
        root: String,
        router: ToolRouter,
        trials: Trials,
        call: ToolCall,
    },
    Working { session: Session, summary: String },
    Stopped { record: RunRecord },
    Closed,
}

/// The mathematical form of a phase of a planned repair.
pub enum PlannerPhaseView {
    Opening,
    Planning { run: RunView },
    Reopening { run: RunView, fix: PlannedFixView },
    Trying {
        run: RunView,
        fix: PlannedFixView,
        root: Seq<char>,
        policy: PolicyView,
        trials: TrialsView,
        call: ToolCallView,
    },
    Working { session: SessionView, summary: Seq<char> },
    Stopped { run: RunView },
    Closed,
}

impl View for PlannerPhase {
    type V = PlannerPhaseView;

    open spec fn view(&self) -> PlannerPhaseView {
        match self {
            PlannerPhase::Opening => PlannerPhaseView::Opening,
            PlannerPhase::Planning { record } => PlannerPhaseView::Planning { run: record@ },
            PlannerPhase::Reopening { record, fix } => PlannerPhaseView::Reopening {
                run: record@,
                fix: fix@,
            },
            PlannerPhase::Trying { record, fix, root, router, trials, call } => {
                PlannerPhaseView::Trying {
                    run: record@,
                    fix: fix@,
                    root: root@,
                    policy: router@,
                    trials: trials@,
                    call: call@,
                }
            },
            PlannerPhase::Working { session, summary } => PlannerPhaseView::Working {
                session: session@,
                summary: summary@,
            },
            PlannerPhase::Stopped { record } => PlannerPhaseView::Stopped { run: record@ },
            PlannerPhase::Closed => PlannerPhaseView::Closed,
        }
    }
}

/// A planned repair in work.
#[derive(Debug)]
pub struct Planner {
    pub order: PlanOrder,
    pub phase: PlannerPhase,
}

/// The mathematical form of a planned repair in work.
pub struct PlannerView {
    pub order: PlanOrderView,
    pub phase: PlannerPhaseView,
}

impl View for Planner {
    type V = PlannerView;

    open spec fn view(&self) -> PlannerView {
        PlannerView { order: self.order@, phase: self.phase@ }
    }
}

/// What a planned repair asks for: something of the host, the answer of the
/// model, or nothing any more.
#[derive(Debug)]
pub enum PlannerStep {
    Ask(SessionRequest),
    Complete,
    Done(Result<RepoFixResult, ExecutionError>),
}

/// The mathematical form of what a planned repair asks for.
pub enum PlannerStepView {
    Ask(SessionRequestView),
    Complete,
    Done(Result<RepoFixResultView, ExecutionErrorView>),
}

impl View for PlannerStep {
    type V = PlannerStepView;

    open spec fn view(&self) -> PlannerStepView {
        match self {
            PlannerStep::Ask(request) => PlannerStepView::Ask(request@),
            PlannerStep::Complete => PlannerStepView::Complete,
            PlannerStep::Done(result) => PlannerStepView::Done(res_view(*result)),
        }
    }
}

/// What a planned repair is told.
#[derive(Debug)]
pub enum PlannerReply {
    Host(SessionReply),
    Completed(Result<ModelResponse, ModelError>),
}

/// The mathematical form of what a planned repair is told.
pub enum PlannerReplyView {
    Host(SessionReplyView),
    Completed(Result<ModelResponseView, ModelErrorView>),
}

impl View for PlannerReply {
    type V = PlannerReplyView;

    open spec fn view(&self) -> PlannerReplyView {
        match self {
            PlannerReply::Host(reply) => PlannerReplyView::Host(reply@),
            PlannerReply::Completed(outcome) => PlannerReplyView::Completed(res_view(*outcome)),
        }
    }
}

// The rules of a planned repair

/// A planned repair that ends before there is a run.
pub open spec fn planner_over(order: PlanOrderView, error: ExecutionErrorView) -> (
    PlannerView,
    PlannerStepView,
) {
    (
        PlannerView { order, phase: PlannerPhaseView::Closed },
        PlannerStepView::Done(Err(error)),
    )
}

/// A planned repair that ends with a run that is not worked on.
pub open spec fn planner_stops(order: PlanOrderView, run: RunView, error: ExecutionErrorView) -> (
    PlannerView,
    PlannerStepView,
) {
    (
        PlannerView { order, phase: PlannerPhaseView::Stopped { run } },
        PlannerStepView::Done(Err(error)),
    )
}

/// A run whose plan was refused.
pub open spec fn rejected_run(run: RunView, message: Seq<char>) -> RunView {
    with_event(run, "agent.plan_rejected"@, Some(0), message)
}

/// What comes of a plan that was read: it is accepted as a repair, or the
/// refusal is recorded.
pub open spec fn planner_judges(
    order: PlanOrderView,
    run: RunView,
    text: Seq<char>,
    parsed: Result<AgentPlanView, PlanErrorView>,
) -> (PlannerView, PlannerStepView) {
    match parsed {
        Err(error) => planner_stops(
            order,
            rejected_run(run, plan_error_text(error)),
            refused_plan(error),
        ),
        Ok(plan) => match fix_plan(plan) {
            Err(error) => planner_stops(
                order,
                rejected_run(run, execution_error_text(error)),
                error,
            ),
            Ok(fix) => (
                PlannerView {
                    order,
                    phase: PlannerPhaseView::Reopening {
                        run,
                        fix: PlannedFixView { plan: fix, text },
                    },
                },
                PlannerStepView::Ask(SessionRequestView::Open(order.workspace)),
            ),
        },
    }
}

/// The run in which a model is asked for a plan.
pub open spec fn planning_run(order: PlanOrderView) -> Result<RunView, StoreErrorView> {
    match created_run(order.run_id, step_sequence(1)) {
        Err(error) => Err(error),
        Ok(run) => Ok(
            with_event(
                run,
                "agent.created"@,
                None,
                "agent=repo-fix-model model="@ + order.request.model,
            ),
        ),
    }
}

/// A planned repair that asks the model.
pub open spec fn planner_asks(
    order: PlanOrderView,
    payload: Result<Seq<char>, Seq<char>>,
) -> (PlannerView, PlannerStepView) {
    match planning_run(order) {
        Err(error) => planner_over(order, ExecutionErrorView::Store(error)),
        Ok(run) => match llm_begun(run, 0, payload) {
            (begun, Err(error)) => planner_stops(order, begun, error),
            (begun, Ok(Some(text))) => planner_judges(
                order,
                begun,
                text,
                plan_from(plan_json(text), order.style),
            ),
            (begun, Ok(None)) => (
                PlannerView { order, phase: PlannerPhaseView::Planning { run: begun } },
                PlannerStepView::Complete,
            ),
        },
    }
}

/// The trial that is made in a round: to read, to write, to read again.
pub open spec fn trial_action(plan: RepoFixPlanView, round: nat) -> ToolActionView {
    if round == 1 {
        ToolActionView::WriteFile { path: plan.path, contents: plan.contents }
    } else {
        ToolActionView::ReadFile(plan.path)
    }
}

/// The first fault of the trials so far.
pub open spec fn fault_after<T>(
    fault: Option<SandboxErrorView>,
    outcome: Result<T, SandboxErrorView>,
) -> Option<SandboxErrorView> {
    match (fault, outcome) {
        (None, Err(error)) => Some(error),
        _ => fault,
    }
}

/// A run whose plan was accepted.
pub open spec fn validated_run(run: RunView, fix: PlannedFixView) -> RunView {
    with_event(
        with_event(
            run,
            "agent.plan"@,
            Some(0),
            "summary="@ + fix.plan.summary + " plan_sha256="@ + text_hash(fix.text),
        ),
        "agent.plan_validated"@,
        Some(0),
        "tools=read_file,write_file,read_file,gate_contains path="@ + fix.plan.path,
    )
}

/// A run that was extended by the steps of an accepted plan.
pub open spec fn repair_run(
    order: PlanOrderView,
    run: RunView,
    fix: PlannedFixView,
    root: Seq<char>,
) -> Result<RunView, StoreErrorView> {
    match expanded_run(validated_run(run, fix), step_sequence(5).subrange(1, 5)) {
        Err(error) => Err(error),
        Ok(longer) => configured_steps(
            longer,
            1,
            fix_specs(
                order.run_id,
                1,
                root,
                fix.plan.path,
                fix.plan.contents,
                fix.plan.expected,
            ),
        ),
    }
}

/// A planned repair whose trials are over: a fault refuses the plan, and
/// without one it is carried out.
pub open spec fn planner_decides(
    order: PlanOrderView,
    run: RunView,
    fix: PlannedFixView,
    root: Seq<char>,
    fault: Option<SandboxErrorView>,
) -> (PlannerView, PlannerStepView) {
    match fault {
        Some(error) => planner_stops(
            order,
            rejected_run(run, sandbox_error_text(error)),
            ExecutionErrorView::Sandbox(error),
        ),
        None => match repair_run(order, run, fix, root) {
            Err(error) => planner_stops(
                order,
                validated_run(run, fix),
                ExecutionErrorView::Store(error),
            ),
            Ok(extended) => (
                PlannerView {
                    order,
                    phase: PlannerPhaseView::Working {
                        session: session_started(extended, order.pause_ms, order.style),
                        summary: fix.plan.summary,
                    },
                },
                PlannerStepView::Ask(SessionRequestView::Proceed),
            ),
        },
    }
}

/// A planned repair that is tried against the policy. All trials are made, and
/// the first fault counts.
pub open spec fn planner_tries(
    order: PlanOrderView,
    run: RunView,
    fix: PlannedFixView,
    root: Seq<char>,
    policy: PolicyView,
    trials: TrialsView,
    next: (ToolCallView, ToolProgressView),
) -> (PlannerView, PlannerStepView)
    decreases 3 - trials.round,
{
    match next.1 {
        ToolProgressView::Ask(request) => (
            PlannerView {
                order,
                phase: PlannerPhaseView::Trying { run, fix, root, policy, trials, call: next.0 },
            },
            PlannerStepView::Ask(SessionRequestView::File(request)),
        ),
        ToolProgressView::Done(outcome) => {
            let fault = fault_after(trials.fault, outcome);
            if trials.round < 2 {
                let round = (trials.round + 1) as nat;
                planner_tries(
                    order,
                    run,
                    fix,
                    root,
                    policy,
                    TrialsView { round, fault },
                    call_started(policy, trial_action(fix.plan, round), true),
                )
            } else {
                planner_decides(order, run, fix, root, fault)
            }
        },
    }
}

/// A planned repair whose run goes on or ends.
pub open spec fn planner_works(
    order: PlanOrderView,
    summary: Seq<char>,
    next: (SessionView, SessionRequestView),
) -> (PlannerView, PlannerStepView) {
    (
        PlannerView { order, phase: PlannerPhaseView::Working { session: next.0, summary } },
        match next.1 {
            SessionRequestView::Done(Ok(())) => PlannerStepView::Done(
                Ok(RepoFixResultView { run_id: order.run_id, output: summary }),
            ),
            SessionRequestView::Done(Err(error)) => PlannerStepView::Done(Err(error)),
            request => PlannerStepView::Ask(request),
        },
    )
}

/// How a planned repair begins.
pub open spec fn planner_started(order: PlanOrderView) -> (PlannerView, PlannerStepView) {
    (
        PlannerView { order, phase: PlannerPhaseView::Opening },
        PlannerStepView::Ask(SessionRequestView::Open(order.workspace)),
    )
}

/// What comes of the answer of the model.
pub open spec fn planner_answered(
    order: PlanOrderView,
    run: RunView,
    outcome: Result<ModelResponseView, ModelErrorView>,
) -> (PlannerView, PlannerStepView) {
    match llm_ended(run, 0, outcome) {
        (ended, Err(error)) => planner_stops(order, ended, error),
        (ended, Ok(text)) => planner_judges(
            order,
            ended,
            text,
            plan_from(plan_json(text), order.style),
        ),
    }
}

/// What a planned repair does when it is told something.
pub open spec fn planner_next(planner: PlannerView, reply: PlannerReplyView) -> (
    PlannerView,
    PlannerStepView,
) {
    let order = planner.order;
    match (planner.phase, reply) {
        (
            PlannerPhaseView::Opening,
            PlannerReplyView::Host(SessionReplyView::Opened { canonical, is_directory }),
        ) => match workspace_root(canonical, is_directory) {
            Err(error) => planner_over(order, ExecutionErrorView::Sandbox(error)),
            Ok(_) => planner_asks(order, request_payload(order.request)),
        },
        (PlannerPhaseView::Planning { run }, PlannerReplyView::Completed(outcome)) => {
            planner_answered(order, run, outcome)
        },
        (
            PlannerPhaseView::Reopening { run, fix },
            PlannerReplyView::Host(SessionReplyView::Opened { canonical, is_directory }),
        ) => match workspace_root(canonical, is_directory) {
            Err(error) => planner_stops(order, run, ExecutionErrorView::Sandbox(error)),
            Ok(root) => {
                let policy = workspace_policy(root, order.style);
                planner_tries(
                    order,
                    run,
                    fix,
                    root,
                    policy,
                    TrialsView { round: 0, fault: None },
                    call_started(policy, trial_action(fix.plan, 0), true),
                )
            },
        },
        (
            PlannerPhaseView::Trying { run, fix, root, policy, trials, call },
            PlannerReplyView::Host(SessionReplyView::File(reply)),
        ) => planner_tries(
            order,
            run,
            fix,
            root,
            policy,
            trials,
            call_resumed(policy, call, reply),
        ),
        (PlannerPhaseView::Working { session, summary }, PlannerReplyView::Host(reply)) => {
            planner_works(order, summary, session_next(session, reply))
        },
        (PlannerPhaseView::Planning { run }, _) => planner_stops(
            order,
            run,
            ExecutionErrorView::Sandbox(reply_mismatch()),
        ),
        (PlannerPhaseView::Reopening { run, .. }, _) => planner_stops(
            order,
            run,
            ExecutionErrorView::Sandbox(reply_mismatch()),
        ),
        (PlannerPhaseView::Trying { run, .. }, _) => planner_stops(
            order,
            run,
            ExecutionErrorView::Sandbox(reply_mismatch()),
        ),
        (PlannerPhaseView::Working { session, .. }, _) => planner_stops(
            order,
            session.run,
            ExecutionErrorView::Sandbox(reply_mismatch()),
        ),
        (PlannerPhaseView::Stopped { run }, _) => planner_stops(
            order,
            run,
            ExecutionErrorView::Sandbox(reply_mismatch()),
        ),
        _ => planner_over(order, ExecutionErrorView::Sandbox(reply_mismatch())),
    }
}

/// The run of a planned repair, as soon as there is one.
pub open spec fn planner_run(planner: PlannerView) -> Option<RunView> {
    match planner.phase {
        PlannerPhaseView::Opening => None,
        PlannerPhaseView::Planning { run } => Some(run),
        PlannerPhaseView::Reopening { run, .. } => Some(run),
        PlannerPhaseView::Trying { run, .. } => Some(run),
        PlannerPhaseView::Working { session, .. } => Some(session.run),
        PlannerPhaseView::Stopped { run } => Some(run),
        PlannerPhaseView::Closed => None,
    }
}

/// Whether the numbers in a planned repair fit the machine.
pub open spec fn planner_fits(planner: PlannerView) -> bool {
    match planner.phase {
        PlannerPhaseView::Planning { run } => indices_below(run.steps, 5),
        PlannerPhaseView::Reopening { run, .. } => indices_below(run.steps, 5),
        PlannerPhaseView::Trying { run, trials, .. } => {
            indices_below(run.steps, 5) && trials.round < 3
        },
        PlannerPhaseView::Working { session, .. } => session_fits(session),
        _ => true,
    }
}

// Carrying it out

fn mismatched() -> (error: ExecutionError)
    ensures
        error@ == ExecutionErrorView::Sandbox(reply_mismatch()),
{
    ExecutionError::Sandbox(
        SandboxError::Io("the host gave an answer of another kind".to_owned()),
    )
}

fn start_trial(router: &ToolRouter, plan: &RepoFixPlan, round: u8) -> (next: (
    ToolCall,
    ToolProgress,
))
    ensures
        (next.0@, next.1@) == call_started(router@, trial_action(plan@, round as nat), true),
{
    if round == 1 {
        router.validate_write(plan.path.as_str(), plan.contents.as_str())
    } else {
        router.validate_read(plan.path.as_str())
    }
}

fn record_rejected(record: &mut RunRecord, message: &str)
    ensures
        final(record)@ == rejected_run(old(record)@, message@),
{
    record.record_event("agent.plan_rejected", Some(0), message);
}

fn record_validated(record: &mut RunRecord, fix: &PlannedFix)
    ensures
        final(record)@ == validated_run(old(record)@, fix@),
{
    let mut payload = "summary=".to_owned();
    payload.append(fix.plan.summary.as_str());
    payload.append(" plan_sha256=");
    payload.append(hash_text(fix.text.as_str()).as_str());
    record.record_event("agent.plan", Some(0), payload.as_str());
    let mut tools = "tools=read_file,write_file,read_file,gate_contains path=".to_owned();
    tools.append(fix.plan.path.as_str());
    record.record_event("agent.plan_validated", Some(0), tools.as_str());
}

fn repair_definitions() -> (definitions: Vec<StepDefinition>)
    ensures
        views(definitions@) == step_sequence(5).subrange(1, 5),
{
    let all = StepDefinition::sequence(5);
    let mut definitions: Vec<StepDefinition> = Vec::new();
    let mut i: usize = 1;
    while i < 5
        invariant
            1 <= i <= 5,
            views(all@) == step_sequence(5),
            views(definitions@) == step_sequence(5).subrange(1, i as int),
        decreases 5 - i,
    {
        let ghost before = views(definitions@);
        proof {
            assert(all@.len() == views(all@).len());
            assert(views(all@)[i as int] == all@[i as int]@);
        }
        let definition = StepDefinition { index: all[i].index, id: all[i].id.clone() };
        definitions.push(definition);
        proof {
            assert(views(definitions@) =~= before.push(definition@));
            assert(step_sequence(5).subrange(1, i + 1) =~= step_sequence(5).subrange(
                1,
                i as int,
            ).push(step_sequence(5)[i as int]));
        }
        i = i + 1;
    }
    definitions
}

proof fn lemma_llm_below(run: RunView, payload: Result<Seq<char>, Seq<char>>)
    requires
        indices_below(run.steps, 5),
    ensures
        indices_below(llm_begun(run, 0, payload).0.steps, 5),
{
}

proof fn lemma_answer_below(run: RunView, outcome: Result<ModelResponseView, ModelErrorView>)
    requires
        indices_below(run.steps, 5),
    ensures
        indices_below(llm_ended(run, 0, outcome).0.steps, 5),
{
    let answered = answered_run(run, 0, outcome);
    lemma_step_position(answered.steps, 0);
    match outcome {
        Ok(response) => match completed_run(answered, 0, response.text) {
            Ok(next) => {
                assert forall|i: int| 0 <= i < next.steps.len() implies (
                #[trigger] next.steps[i]).index < 5 by {
                    assert(run.steps[i].index < 5);
                }
            },
            Err(_) => {},
        },
        Err(_) => {},
    }
}

impl Planner {
    fn over(order: PlanOrder, error: ExecutionError) -> (next: (Planner, PlannerStep))
        ensures
            (next.0@, next.1@) == planner_over(order@, error@),
            planner_fits(next.0@),
    {
        (Planner { order, phase: PlannerPhase::Closed }, PlannerStep::Done(Err(error)))
    }

    fn stops(order: PlanOrder, record: RunRecord, error: ExecutionError) -> (next: (
        Planner,
        PlannerStep,
    ))
        ensures
            (next.0@, next.1@) == planner_stops(order@, record@, error@),
            planner_fits(next.0@),
    {
        (
            Planner { order, phase: PlannerPhase::Stopped { record } },
            PlannerStep::Done(Err(error)),
        )
    }

    /// Decides what comes of a plan that was read.
    pub fn judge(
        order: PlanOrder,
        record: RunRecord,
        text: String,
        parsed: Result<AgentPlan, PlanError>,
    ) -> (next: (Planner, PlannerStep))
        requires
            indices_below(record@.steps, 5),
        ensures
            (next.0@, next.1@) == planner_judges(order@, record@, text@, res_view(parsed)),
            planner_fits(next.0@),
    {
        let mut record = record;
        match parsed {
            Err(error) => {
                record_rejected(&mut record, error.message().as_str());
                let refused = ExecutionError::from_plan_error(&error);
                Planner::stops(order, record, refused)
            },
            Ok(plan) => match RepoFixPlan::from_agent_plan(plan) {
                Err(error) => {
                    record_rejected(&mut record, error.message().as_str());
                    Planner::stops(order, record, error)
                },
                Ok(plan) => {
                    let workspace = order.workspace.clone();
                    let fix = PlannedFix { plan, text };
                    (
                        Planner { order, phase: PlannerPhase::Reopening { record, fix } },
                        PlannerStep::Ask(SessionRequest::Open(workspace)),
                    )
                },
            },
        }
    }

    fn asks(order: PlanOrder) -> (next: (Planner, PlannerStep))
        ensures
            (next.0@, next.1@) == planner_asks(order@, request_payload(order@.request)),
            planner_fits(next.0@),
    {
        let definitions = StepDefinition::sequence(1);
        let mut record = match RunRecord::create(order.run_id.as_str(), &definitions) {
            Err(error) => return Planner::over(order, ExecutionError::Store(error)),
            Ok(record) => record,
        };
        proof {
            lemma_add_below(Seq::empty(), step_sequence(1), 5);
        }
        let mut payload = "agent=repo-fix-model model=".to_owned();
        payload.append(order.request.model.as_str());
        record.record_event("agent.created", None, payload.as_str());
        proof {
            lemma_llm_below(record@, request_payload(order@.request));
        }
        match begin_llm_step(&mut record, 0, &order.request) {
            Err(error) => Planner::stops(order, record, error),
            Ok(Some(text)) => {
                let parsed = AgentPlan::parse(text.as_str(), order.style);
                Planner::judge(order, record, text, parsed)
            },
            Ok(None) => (
                Planner { order, phase: PlannerPhase::Planning { record } },
                PlannerStep::Complete,
            ),
        }
    }

    fn answered(order: PlanOrder, record: RunRecord, outcome: Result<ModelResponse, ModelError>) -> (next:
        (Planner, PlannerStep))
        requires
            indices_below(record@.steps, 5),
        ensures
            (next.0@, next.1@) == planner_answered(order@, record@, res_view(outcome)),
            planner_fits(next.0@),
    {
        let mut record = record;
        proof {
            lemma_answer_below(record@, res_view(outcome));
        }
        match end_llm_step(&mut record, 0, outcome) {
            Err(error) => Planner::stops(order, record, error),
            Ok(text) => {
                let parsed = AgentPlan::parse(text.as_str(), order.style);
                Planner::judge(order, record, text, parsed)
            },
        }
    }

    fn decides(
        order: PlanOrder,
        record: RunRecord,
        fix: PlannedFix,
        root: &str,
        fault: Option<SandboxError>,
    ) -> (next: (Planner, PlannerStep))
        requires
            indices_below(record@.steps, 5),
        ensures
            (next.0@, next.1@) == planner_decides(
                order@,
                record@,
                fix@,
                root@,
                opt_view(fault),
            ),
            planner_fits(next.0@),
    {
        let mut record = record;
        match fault {
            Some(error) => {
                record_rejected(&mut record, error.message().as_str());
                return Planner::stops(order, record, ExecutionError::Sandbox(error));
            },
            None => {},
        }
        record_validated(&mut record, &fix);
        let definitions = repair_definitions();
        proof {
            lemma_add_below(record@.steps, views(definitions@), 5);
        }
        let mut extended = record.clone();
        match extended.append_steps(&definitions) {
            Err(error) => return Planner::stops(order, record, ExecutionError::Store(error)),
            Ok(()) => {},
        }
        let specs = repair_specs(
            order.run_id.as_str(),
            1,
            root,
            fix.plan.path.as_str(),
            fix.plan.contents.as_str(),
            fix.plan.expected.as_str(),
        );
        proof {
            lemma_configure_below(extended@, 1, views(specs@), 5);
            assert(specs@.len() == views(specs@).len());
        }
        match configure_steps(&mut extended, 1, &specs) {
            Err(error) => Planner::stops(order, record, ExecutionError::Store(error)),
            Ok(()) => {
                let session = resume_run_with_pause(extended, order.pause_ms, order.style);
                let summary = fix.plan.summary;
                (
                    Planner { order, phase: PlannerPhase::Working { session, summary } },
                    PlannerStep::Ask(SessionRequest::Proceed),
                )
            },
        }
    }

    fn tries(
        order: PlanOrder,
        record: RunRecord,
        fix: PlannedFix,
        root: String,
        router: ToolRouter,
        trials: Trials,
        next: (ToolCall, ToolProgress),
    ) -> (after: (Planner, PlannerStep))
        requires
            indices_below(record@.steps, 5),
            trials.round < 3,
        ensures
            (after.0@, after.1@) == planner_tries(
                order@,
                record@,
                fix@,
                root@,
                router@,
                trials@,
                (next.0@, next.1@),
            ),
            planner_fits(after.0@),
        decreases 3 - trials.round,
    {
        match next.1 {
            ToolProgress::Ask(request) => (
                Planner {
                    order,
                    phase: PlannerPhase::Trying {
                        record,
                        fix,
                        root,
                        router,
                        trials,
                        call: next.0,
                    },
                },
                PlannerStep::Ask(SessionRequest::File(request)),
            ),
            ToolProgress::Done(outcome) => {
                let round = trials.round;
                let fault = match trials.fault {
                    Some(error) => Some(error),
                    None => match outcome {
                        Err(error) => Some(error),
                        Ok(_) => None,
                    },
                };
                if round < 2 {
                    let trial = start_trial(&router, &fix.plan, round + 1);
                    Planner::tries(
                        order,
                        record,
                        fix,
                        root,
                        router,
                        Trials { round: round + 1, fault },
                        trial,
                    )
                } else {
                    Planner::decides(order, record, fix, root.as_str(), fault)
                }
            },
        }
    }

    fn works(order: PlanOrder, summary: String, next: (Session, SessionRequest)) -> (after: (
        Planner,
        PlannerStep,
    ))
        requires
            session_fits(next.0@),
        ensures
            (after.0@, after.1@) == planner_works(order@, summary@, (next.0@, next.1@)),
            planner_fits(after.0@),
    {
        let step = match next.1 {
            SessionRequest::Done(Ok(())) => PlannerStep::Done(
                Ok(RepoFixResult { run_id: order.run_id.clone(), output: summary.clone() }),
            ),
            SessionRequest::Done(Err(error)) => PlannerStep::Done(Err(error)),
            request => PlannerStep::Ask(request),
        };
        (Planner { order, phase: PlannerPhase::Working { session: next.0, summary } }, step)
    }

    fn reopened(
        order: PlanOrder,
        record: RunRecord,
        fix: PlannedFix,
        opened: Result<Policy, SandboxError>,
    ) -> (next: (Planner, PlannerStep))
        requires
            indices_below(record@.steps, 5),
            opened is Ok ==> opened->Ok_0@ == workspace_policy(opened->Ok_0@.root, order@.style),
        ensures
            (next.0@, next.1@) == match opened {
                Err(error) => planner_stops(
                    order@,
                    record@,
                    ExecutionErrorView::Sandbox(error@),
                ),
                Ok(policy) => planner_tries(
                    order@,
                    record@,
                    fix@,
                    policy@.root,
                    policy@,
                    TrialsView { round: 0, fault: None },
                    call_started(policy@, trial_action(fix@.plan, 0), true),
                ),
            },
            planner_fits(next.0@),
    {
        match opened {
            Err(error) => Planner::stops(order, record, ExecutionError::Sandbox(error)),
            Ok(policy) => {
                let root = policy.root().to_owned();
                let router = ToolRouter::new(policy);
                let trial = start_trial(&router, &fix.plan, 0);
                Planner::tries(
                    order,
                    record,
                    fix,
                    root,
                    router,
                    Trials { round: 0, fault: None },
                    trial,
                )
            },
        }
    }

    /// Goes on with the repair when it is told what came of the last request.
    pub fn advance(self, reply: PlannerReply) -> (next: (Planner, PlannerStep))
        requires
            planner_fits(self@),
        ensures
            (next.0@, next.1@) == planner_next(self@, reply@),
            planner_fits(next.0@),
    {
        let order = self.order;
        match (self.phase, reply) {
            (
                PlannerPhase::Opening,
                PlannerReply::Host(SessionReply::Opened { canonical, is_directory }),
            ) => match Policy::workspace(canonical, is_directory, order.style) {
                Err(error) => Planner::over(order, ExecutionError::Sandbox(error)),
                Ok(_) => Planner::asks(order),
            },
            (PlannerPhase::Planning { record }, PlannerReply::Completed(outcome)) => {
                Planner::answered(order, record, outcome)
            },
            (
                PlannerPhase::Reopening { record, fix },
                PlannerReply::Host(SessionReply::Opened { canonical, is_directory }),
            ) => {
                let opened = Policy::workspace(canonical, is_directory, order.style);
                Planner::reopened(order, record, fix, opened)
            },
            (
                PlannerPhase::Trying { record, fix, root, router, trials, call },
                PlannerReply::Host(SessionReply::File(reply)),
            ) => {
                let next = router.resume(call, reply);
                Planner::tries(order, record, fix, root, router, trials, next)
            },
            (PlannerPhase::Working { session, summary }, PlannerReply::Host(reply)) => {
                let next = session.advance(reply);
                Planner::works(order, summary, next)
            },
            (PlannerPhase::Planning { record }, _) => {
                Planner::stops(order, record, mismatched())
            },
            (PlannerPhase::Reopening { record, .. }, _) => {
                Planner::stops(order, record, mismatched())
            },
            (PlannerPhase::Trying { record, .. }, _) => {
                Planner::stops(order, record, mismatched())
            },
            (PlannerPhase::Working { session, .. }, _) => {
                Planner::stops(order, session.record, mismatched())
            },
            (PlannerPhase::Stopped { record }, _) => Planner::stops(order, record, mismatched()),
            _ => Planner::over(order, mismatched()),
        }
    }

    /// The run of the repair, as soon as there is one. It is to be kept before
    /// each request is carried out.
    pub fn record(&self) -> (record: Option<&RunRecord>)
        ensures
            match record {
                Some(record) => planner_run(self@) == Some(record@),
                None => planner_run(self@) is None,
            },
    {
        match &self.phase {
            PlannerPhase::Opening => None,
            PlannerPhase::Planning { record } => Some(record),
            PlannerPhase::Reopening { record, .. } => Some(record),
            PlannerPhase::Trying { record, .. } => Some(record),
            PlannerPhase::Working { session, .. } => Some(&session.record),
            PlannerPhase::Stopped { record } => Some(record),
            PlannerPhase::Closed => None,
        }
    }
}

/// Begins a repair by the plan of a model.
pub fn repo_fix_from_model(order: PlanOrder) -> (next: (Planner, PlannerStep))
    ensures
        (next.0@, next.1@) == planner_started(order@),
        planner_fits(next.0@),
{
    let workspace = order.workspace.clone();
    (
        Planner { order, phase: PlannerPhase::Opening },
        PlannerStep::Ask(SessionRequest::Open(workspace)),
    )
}

// Laws

/// A plan is tried before it is carried out: its file is looked at to be read, to
/// be written with what the plan writes, and to be read again. If one of these
/// fails, the first failure ends the repair and is recorded, and nothing is
/// carried out; only if none does, the repair is added to the run.
pub proof fn failed_trials_stop_the_repair(
    order: PlanOrderView,
    run: RunView,
    fix: PlannedFixView,
    root: Seq<char>,
    policy: PolicyView,
    trials: TrialsView,
    next: (ToolCallView, ToolProgressView),
)
    requires
        trials.round <= 2,
        next.1 is Done,
    ensures
        ({
            let outcome = next.1->Done_0;
            let fault = if trials.fault is None && outcome is Err {
                Some(outcome->Err_0)
            } else {
                trials.fault
            };
            let (planner, step) = planner_tries(order, run, fix, root, policy, trials, next);
            if trials.round < 2 {
                let later = TrialsView { round: trials.round + 1, fault };
                let action = if trials.round == 0 {
                    ToolActionView::WriteFile {
                        path: fix.plan.path,
                        contents: fix.plan.contents,
                    }
                } else {
                    ToolActionView::ReadFile(fix.plan.path)
                };
                (planner, step) == planner_tries(
                    order,
                    run,
                    fix,
                    root,
                    policy,
                    later,
                    call_started(policy, action, true),
                )
            } else if fault is Some {
                &&& step == PlannerStepView::Done(Err(ExecutionErrorView::Sandbox(fault->0)))
                &&& planner.phase matches PlannerPhaseView::Stopped { run: stopped }
                    && one_more_event(
                    run.events,
                    stopped.events,
                    "agent.plan_rejected"@,
                    Some(0),
                    sandbox_error_text(fault->0),
                ) && stopped == (RunView { events: stopped.events, ..run })
            } else {
                match repair_run(order, run, fix, root) {
                    Ok(extended) => {
                        &&& step == PlannerStepView::Ask(SessionRequestView::Proceed)
                        &&& planner.phase == (PlannerPhaseView::Working {
                            session: session_started(extended, order.pause_ms, order.style),
                            summary: fix.plan.summary,
                        })
                    },
                    Err(error) => step == PlannerStepView::Done(
                        Err(ExecutionErrorView::Store(error)),
                    ),
                }
            }
        }),
{
}

/// What is recorded of a plan: its summary and the digest of the text that it was
/// read from, and that it may be carried out, with its file.
pub proof fn accepted_plans_are_recorded(run: RunView, fix: PlannedFixView)
    ensures
        exists|middle: Seq<EventView>|
            #[trigger] one_more_event(
                run.events,
                middle,
                "agent.plan"@,
                Some(0),
                "summary="@ + fix.plan.summary + " plan_sha256="@ + text_hash(fix.text),
            ) && one_more_event(
                middle,
                validated_run(run, fix).events,
                "agent.plan_validated"@,
                Some(0),
                "tools=read_file,write_file,read_file,gate_contains path="@ + fix.plan.path,
            ),
        validated_run(run, fix) == (RunView { events: validated_run(run, fix).events, ..run }),
{
    let middle = run.events.push(
        EventView {
            sequence: run.events.len(),
            event_type: "agent.plan"@,
            step_index: Some(0),
            payload: "summary="@ + fix.plan.summary + " plan_sha256="@ + text_hash(fix.text),
        },
    );
    assert(one_more_event(
        run.events,
        middle,
        "agent.plan"@,
        Some(0),
        "summary="@ + fix.plan.summary + " plan_sha256="@ + text_hash(fix.text),
    ));
}

/// What is made of the answer of the model: an error of the model ends the
/// repair; a text that is no plan, or no repair of one file, is refused with its
/// reason, which is recorded; and for a repair the workspace is asked for.
pub proof fn answers_are_judged_as_plans(
    order: PlanOrderView,
    run: RunView,
    text: Seq<char>,
    parsed: Result<AgentPlanView, PlanErrorView>,
)
    ensures
        ({
            let (planner, step) = planner_judges(order, run, text, parsed);
            match parsed {
                Err(error) => {
                    &&& step == PlannerStepView::Done(
                        Err(ExecutionErrorView::Plan(plan_error_text(error))),
                    )
                    &&& planner.phase matches PlannerPhaseView::Stopped { run: stopped }
                        && one_more_event(
                        run.events,
                        stopped.events,
                        "agent.plan_rejected"@,
                        Some(0),
                        plan_error_text(error),
                    ) && stopped == (RunView { events: stopped.events, ..run })
                },
                Ok(plan) => match fix_plan(plan) {
                    Err(error) => {
                        &&& step == PlannerStepView::Done(Err(error))
                        &&& planner.phase matches PlannerPhaseView::Stopped { run: stopped }
                            && one_more_event(
                            run.events,
                            stopped.events,
                            "agent.plan_rejected"@,
                            Some(0),
                            execution_error_text(error),
                        ) && stopped == (RunView { events: stopped.events, ..run })
                    },
                    Ok(fix) => {
                        &&& step == PlannerStepView::Ask(SessionRequestView::Open(order.workspace))
                        &&& planner.phase == (PlannerPhaseView::Reopening {
                            run,
                            fix: PlannedFixView { plan: fix, text },
                        })
                    },
                },
            }
        }),
{
}

/// How a planned repair begins: it asks for its workspace, then creates its run,
/// records the model, and asks the model what the order says.
pub proof fn planned_repairs_ask_their_model(
    order: PlanOrderView,
    root: Seq<char>,
    error: ModelErrorView,
    run: RunView,
)
    ensures
        planner_started(order) == (
            PlannerView { order, phase: PlannerPhaseView::Opening },
            PlannerStepView::Ask(SessionRequestView::Open(order.workspace)),
        ),
        planning_run(order) matches Ok(created) ==> {
            &&& created.run_id == order.run_id
            &&& created.steps.len() == 1
            &&& created.events.len() == 2
            &&& created.events[1].event_type == "agent.created"@
            &&& created.events[1].payload == "agent=repo-fix-model model="@ + order.request.model
        },
        ({
            let planner = PlannerView { order, phase: PlannerPhaseView::Opening };
            let opened = SessionReplyView::Opened { canonical: Ok(root), is_directory: true };
            planner_next(planner, PlannerReplyView::Host(opened)) == planner_asks(
                order,
                request_payload(order.request),
            )
        }),
        ({
            let planner = PlannerView { order, phase: PlannerPhaseView::Planning { run } };
            planner_next(planner, PlannerReplyView::Completed(Err(error))).1
                == PlannerStepView::Done(Err(ExecutionErrorView::Model(error)))
        }),
{
    if created_run(order.run_id, step_sequence(1)) is Ok {
        new_runs_have_not_begun(order.run_id, step_sequence(1));
    }
}

/// An answer of the model is judged as the text that it is: the step of the model
/// is completed with it, and the plan is read from it.
pub proof fn plans_are_read_from_the_answer(
    order: PlanOrderView,
    run: RunView,
    response: ModelResponseView,
)
    requires
        step_position(run.steps, 0) is Some,
        !run.steps[step_position(run.steps, 0)->0].completed,
    ensures
        ({
            let planner = PlannerView { order, phase: PlannerPhaseView::Planning { run } };
            let told = answered_run(run, 0, Ok(response));
            completed_run(told, 0, response.text) matches Ok(done) && planner_next(
                planner,
                PlannerReplyView::Completed(Ok(response)),
            ) == planner_judges(
                order,
                done,
                response.text,
                plan_from(plan_json(response.text), order.style),
            )
        }),
{
}

/// A planned repair does what its session does, and its result is the summary of
/// the plan.
pub proof fn planned_repairs_do_what_their_session_does(
    order: PlanOrderView,
    session: SessionView,
    summary: Seq<char>,
    reply: SessionReplyView,
)
    ensures
        ({
            let planner = PlannerView {
                order,
                phase: PlannerPhaseView::Working { session, summary },
            };
            let (next, step) = planner_next(planner, PlannerReplyView::Host(reply));
            let (after, request) = session_next(session, reply);
            &&& next.order == order
            &&& next.phase == (PlannerPhaseView::Working { session: after, summary })
            &&& match request {
                SessionRequestView::Done(Ok(())) => step == PlannerStepView::Done(
                    Ok(RepoFixResultView { run_id: order.run_id, output: summary }),
                ),
                SessionRequestView::Done(Err(error)) => step == PlannerStepView::Done(Err(error)),
                _ => step == PlannerStepView::Ask(request),
            }
        }),
{
}

/// A plan is tried before anything is done: in the workspace that was found, its
/// file is read, then written, then read again, all on trial. Without a workspace,
/// or with a reply to something else, the repair stops with its run as it was.
pub proof fn plans_are_tried_in_the_workspace(
    order: PlanOrderView,
    run: RunView,
    fix: PlannedFixView,
    reply: PlannerReplyView,
)
    ensures
        ({
            let reopening = PlannerView { order, phase: PlannerPhaseView::Reopening { run, fix } };
            let (planner, step) = planner_next(reopening, reply);
            match reply {
                PlannerReplyView::Host(SessionReplyView::Opened { canonical, is_directory }) => {
                    match workspace_root(canonical, is_directory) {
                        Ok(root) => {
                            let policy = workspace_policy(root, order.style);
                            let started = call_started(
                                policy,
                                ToolActionView::ReadFile(fix.plan.path),
                                true,
                            );
                            match started.1 {
                                ToolProgressView::Ask(request) => {
                                    &&& step == PlannerStepView::Ask(
                                        SessionRequestView::File(request),
                                    )
                                    &&& planner.phase matches PlannerPhaseView::Trying {
                                        run: tried,
                                        fix: same,
                                        root: found,
                                        policy: used,
                                        trials,
                                        call,
                                    } && tried == run && same == fix && found == root && used
                                        == policy && trials.round == 0 && trials.fault is None
                                        && call == started.0
                                },
                                ToolProgressView::Done(_) => (planner, step) == planner_tries(
                                    order,
                                    run,
                                    fix,
                                    root,
                                    policy,
                                    TrialsView { round: 0, fault: None },
                                    started,
                                ),
                            }
                        },
                        Err(error) => {
                            &&& step == PlannerStepView::Done(
                                Err(ExecutionErrorView::Sandbox(error)),
                            )
                            &&& planner.phase == (PlannerPhaseView::Stopped { run })
                        },
                    }
                },
                _ => {
                    &&& step is Done
                    &&& step->Done_0 is Err
                    &&& planner.phase == (PlannerPhaseView::Stopped { run })
                },
            }
        }),
{
}

/// A trial goes on with the reply of the host to the request of its use, and
/// asks for what that use asks for next.
pub proof fn trials_follow_the_replies(
    order: PlanOrderView,
    run: RunView,
    fix: PlannedFixView,
    root: Seq<char>,
    policy: PolicyView,
    trials: TrialsView,
    call: ToolCallView,
    reply: PlannerReplyView,
)
    ensures
        ({
            let trying = PlannerView {
                order,
                phase: PlannerPhaseView::Trying { run, fix, root, policy, trials, call },
            };
            let (planner, step) = planner_next(trying, reply);
            match reply {
                PlannerReplyView::Host(SessionReplyView::File(found)) => {
                    let resumed = call_resumed(policy, call, found);
                    match resumed.1 {
                        ToolProgressView::Ask(request) => {
                            &&& step == PlannerStepView::Ask(SessionRequestView::File(request))
                            &&& planner.phase == (PlannerPhaseView::Trying {
                                run,
                                fix,
                                root,
                                policy,
                                trials,
                                call: resumed.0,
                            })
                        },
                        ToolProgressView::Done(_) => (planner, step) == planner_tries(
                            order,
                            run,
                            fix,
                            root,
                            policy,
                            trials,
                            resumed,
                        ),
                    }
                },
                _ => {
                    &&& step is Done
                    &&& step->Done_0 is Err
                    &&& planner.phase == (PlannerPhaseView::Stopped { run })
                },
            }
        }),
{
}

} // verus!
