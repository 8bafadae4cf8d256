//! The repair of one file: the plan for it, and the workflow that finds one
//! place, replaces it, and checks the result.

use crate::audit::{hash_text, text_hash};
use crate::exec::{ExecutionError, ExecutionErrorView};
use crate::number::decimal;
use crate::path::PathStyle;
use crate::plan::{AgentPlan, AgentPlanView, PlanAction, PlanActionView};
use crate::run::{idempotency_key, key_for, step_sequence, StepDefinition, StepDefinitionView};
use crate::sandbox::{
    call_resumed, call_started, reply_mismatch, workspace_policy, workspace_root, FileReplyView,
    Policy, PolicyView, SandboxError, SandboxErrorView, ToolActionView, ToolCall, ToolCallView,
    ToolOutput, ToolOutputView, ToolProgress, ToolProgressView, ToolRouter,
};
use crate::session::{
    resume_run_with_pause, session_fits, session_next, session_started, Session, SessionReply,
    SessionReplyView, SessionRequest, SessionRequestView, SessionView,
};
use crate::store::{
    add_steps, configured_run, created_run, insert_step, with_event, RunRecord, RunView,
    StoreError, StoreErrorView, StoredStepView, ToolStepSpec, ToolStepSpecView,
};
use crate::text::{
    absent_texts_are_not_replaced, count_text, has_text, matches_at, occurrences, replace_once,
    replaced_once, replacement_goes_on_behind_a_match, res_view, same_text, unit_view, views,
};
use vstd::prelude::*;
use vstd::string::StringExecFns;

verus! {

// The plan of a repair

/// A plan that repairs one file.
#[derive(Debug)]
pub struct RepoFixPlan {
    pub summary: String,
    pub path: String,
    pub contents: String,
    pub expected: String,
}

/// The mathematical form of a repair plan.
pub struct RepoFixPlanView {
    pub summary: Seq<char>,
    pub path: Seq<char>,
    pub contents: Seq<char>,
    pub expected: Seq<char>,
}

impl View for RepoFixPlan {
    type V = RepoFixPlanView;

    open spec fn view(&self) -> RepoFixPlanView {
        RepoFixPlanView {
            summary: self.summary@,
            path: self.path@,
            contents: self.contents@,
            expected: self.expected@,
        }
    }
}

/// The repair that a plan proposes: it must read a file, write it, read it
/// again and check it, in this order.
pub open spec fn fix_plan(plan: AgentPlanView) -> Result<RepoFixPlanView, ExecutionErrorView> {
    if plan.actions.len() != 4 {
        Err(
            ExecutionErrorView::Plan(
                "repo-fix model plan must contain read, write, read, and gate actions"@,
            ),
        )
    } else {
        match (plan.actions[0], plan.actions[1], plan.actions[2], plan.actions[3]) {
            (
                PlanActionView::Read { path: read },
                PlanActionView::Write { path: write, contents },
                PlanActionView::Read { path: verify },
                PlanActionView::GateContains { path: gate, expected },
            ) => if read != write || read != verify || read != gate {
                Err(ExecutionErrorView::Plan("repo-fix actions must target one file"@))
            } else {
                Ok(RepoFixPlanView { summary: plan.summary, path: read, contents, expected })
            },
            _ => Err(
                ExecutionErrorView::Plan(
                    "repo-fix model plan has an unsafe or incomplete action sequence"@,
                ),
            ),
        }
    }
}

impl RepoFixPlan {
    /// The repair that a plan proposes.
    pub fn from_agent_plan(plan: AgentPlan) -> (result: Result<RepoFixPlan, ExecutionError>)
        ensures
            res_view(result) == fix_plan(plan@),
    {
        if plan.actions.len() != 4 {
            return Err(
                ExecutionError::Plan(
                    "repo-fix model plan must contain read, write, read, and gate actions"
                        .to_owned(),
                ),
            );
        }
        proof {
            assert(plan@.actions[0] == plan.actions@[0]@);
            assert(plan@.actions[1] == plan.actions@[1]@);
            assert(plan@.actions[2] == plan.actions@[2]@);
            assert(plan@.actions[3] == plan.actions@[3]@);
        }
        match (&plan.actions[0], &plan.actions[1], &plan.actions[2], &plan.actions[3]) {
            (
                PlanAction::Read { path: read },
                PlanAction::Write { path: write, contents },
                PlanAction::Read { path: verify },
                PlanAction::GateContains { path: gate, expected },
            ) => {
                let one_file = same_text(read.as_str(), write.as_str()) && same_text(
                    read.as_str(),
                    verify.as_str(),
                ) && same_text(read.as_str(), gate.as_str());
                if !one_file {
                    return Err(
                        ExecutionError::Plan("repo-fix actions must target one file".to_owned()),
                    );
                }
                Ok(
                    RepoFixPlan {
                        summary: plan.summary.clone(),
                        path: read.clone(),
                        contents: contents.clone(),
                        expected: expected.clone(),
                    },
                )
            },
            _ => Err(
                ExecutionError::Plan(
                    "repo-fix model plan has an unsafe or incomplete action sequence".to_owned(),
                ),
            ),
        }
    }
}

// The steps of a repair

/// A step that uses a tool in a workspace.
pub open spec fn fix_spec(
    run_id: Seq<char>,
    index: nat,
    root: Seq<char>,
    tool_name: Seq<char>,
    path: Seq<char>,
    contents: Option<Seq<char>>,
    read_only: bool,
) -> ToolStepSpecView {
    ToolStepSpecView {
        idempotency_key: key_for(run_id, index),
        workspace_root: root,
        tool_name,
        path,
        contents,
        read_only,
        denied_tool: None,
        max_write_bytes: None,
    }
}

/// The four steps of a repair: read, write, read again, check. Only the second
/// may write.
pub open spec fn fix_specs(
    run_id: Seq<char>,
    first: nat,
    root: Seq<char>,
    path: Seq<char>,
    contents: Seq<char>,
    expected: Seq<char>,
) -> Seq<ToolStepSpecView> {
    seq![
        fix_spec(run_id, first, root, "read_file"@, path, None, true),
        fix_spec(run_id, first + 1, root, "write_file"@, path, Some(contents), false),
        fix_spec(run_id, first + 2, root, "read_file"@, path, None, true),
        fix_spec(run_id, first + 3, root, "gate_contains"@, path, Some(expected), true),
    ]
}

/// A run in which consecutive steps were given their tools.
pub open spec fn configured_steps(
    run: RunView,
    first: nat,
    specs: Seq<ToolStepSpecView>,
) -> Result<RunView, StoreErrorView>
    decreases specs.len(),
{
    if specs.len() == 0 {
        Ok(run)
    } else {
        match configured_steps(run, first, specs.drop_last()) {
            Err(error) => Err(error),
            Ok(before) => configured_run(
                before,
                (first + specs.len() - 1) as nat,
                specs.last(),
            ),
        }
    }
}

fn make_spec(
    run_id: &str,
    index: usize,
    root: &str,
    tool_name: &str,
    path: &str,
    contents: Option<String>,
    read_only: bool,
) -> (spec: ToolStepSpec)
    ensures
        spec@ == fix_spec(
            run_id@,
            index as nat,
            root@,
            tool_name@,
            path@,
            crate::text::opt_view(contents),
            read_only,
        ),
{
    ToolStepSpec {
        idempotency_key: idempotency_key(run_id, index),
        workspace_root: root.to_owned(),
        tool_name: tool_name.to_owned(),
        path: path.to_owned(),
        contents,
        read_only,
        denied_tool: None,
        max_write_bytes: None,
    }
}

/// The four steps of a repair.
pub fn repair_specs(
    run_id: &str,
    first: usize,
    root: &str,
    path: &str,
    contents: &str,
    expected: &str,
) -> (specs: Vec<ToolStepSpec>)
    requires
        first + 3 <= usize::MAX,
    ensures
        views(specs@) == fix_specs(run_id@, first as nat, root@, path@, contents@, expected@),
{
    let specs = vec![
        make_spec(run_id, first, root, "read_file", path, None, true),
        make_spec(run_id, first + 1, root, "write_file", path, Some(contents.to_owned()), false),
        make_spec(run_id, first + 2, root, "read_file", path, None, true),
        make_spec(run_id, first + 3, root, "gate_contains", path, Some(expected.to_owned()), true),
    ];
    proof {
        assert(views(specs@) =~= fix_specs(
            run_id@,
            first as nat,
            root@,
            path@,
            contents@,
            expected@,
        ));
    }
    specs
}

proof fn lemma_configuration_stops(
    run: RunView,
    first: nat,
    specs: Seq<ToolStepSpecView>,
    upto: int,
)
    requires
        0 <= upto <= specs.len(),
        configured_steps(run, first, specs.take(upto)) is Err,
    ensures
        configured_steps(run, first, specs) == configured_steps(run, first, specs.take(upto)),
    decreases specs.len() - upto,
{
    if upto < specs.len() {
        assert(specs.take(upto + 1).drop_last() =~= specs.take(upto));
        lemma_configuration_stops(run, first, specs, upto + 1);
    } else {
        assert(specs.take(upto) =~= specs);
    }
}

/// Gives consecutive steps of a run their tools.
pub fn configure_steps(record: &mut RunRecord, first: usize, specs: &Vec<ToolStepSpec>) -> (result:
    Result<(), StoreError>)
    requires
        first + specs@.len() <= usize::MAX,
    ensures
        match configured_steps(old(record)@, first as nat, views(specs@)) {
            Ok(run) => result is Ok && final(record)@ == run,
            Err(error) => unit_view(result) == Err::<(), StoreErrorView>(error),
        },
{
    let ghost all = views(specs@);
    let ghost start = record@;
    let mut i: usize = 0;
    proof {
        assert(all.take(0) =~= Seq::<ToolStepSpecView>::empty());
    }
    while i < specs.len()
        invariant
            all == views(specs@),
            start == old(record)@,
            i <= specs@.len(),
            first + specs@.len() <= usize::MAX,
            configured_steps(start, first as nat, all.take(i as int)) == Ok::<
                RunView,
                StoreErrorView,
            >(record@),
        decreases specs@.len() - i,
    {
        proof {
            assert(all.take(i + 1).drop_last() =~= all.take(i as int));
            assert(all.take(i + 1).last() == specs@[i as int]@);
        }
        match record.configure_tool_step(first + i, &specs[i]) {
            Err(error) => {
                proof {
                    lemma_configuration_stops(start, first as nat, all, i + 1);
                }
                return Err(error);
            },
            Ok(()) => {},
        }
        i = i + 1;
    }
    proof {
        assert(all.take(all.len() as int) =~= all);
    }
    Ok(())
}

// Indices that fit

/// Whether the indices of all steps lie below a bound.
pub open spec fn indices_below(steps: Seq<StoredStepView>, bound: nat) -> bool {
    forall|i: int| 0 <= i < steps.len() ==> (#[trigger] steps[i]).index < bound
}

proof fn lemma_insert_below(steps: Seq<StoredStepView>, step: StoredStepView, bound: nat)
    requires
        indices_below(steps, bound),
        step.index < bound,
    ensures
        indices_below(insert_step(steps, step), bound),
    decreases steps.len(),
{
    if steps.len() > 0 && !(steps.last().index < step.index) {
        let front = steps.drop_last();
        assert forall|i: int| 0 <= i < front.len() implies (#[trigger] front[i]).index < bound by {
            assert(steps[i] == front[i]);
        }
        assert(steps[steps.len() - 1].index < bound);
        lemma_insert_below(front, step, bound);
    }
}

/// Steps that are added with indices below a bound keep all indices below it.
pub proof fn lemma_add_below(
    steps: Seq<StoredStepView>,
    definitions: Seq<StepDefinitionView>,
    bound: nat,
)
    requires
        indices_below(steps, bound),
        forall|i: int| 0 <= i < definitions.len() ==> (#[trigger] definitions[i]).index < bound,
    ensures
        add_steps(steps, definitions) matches Ok(after) ==> indices_below(after, bound),
    decreases definitions.len(),
{
    if definitions.len() > 0 {
        let front = definitions.drop_last();
        assert forall|i: int| 0 <= i < front.len() implies (#[trigger] front[i]).index < bound by {
            assert(definitions[i] == front[i]);
        }
        lemma_add_below(steps, front, bound);
        assert(definitions[definitions.len() - 1].index < bound);
        match add_steps(steps, front) {
            Ok(before) => {
                lemma_insert_below(
                    before,
                    crate::store::pending_step(definitions.last()),
                    bound,
                );
            },
            Err(_) => {},
        }
    }
}

/// Giving steps their tools keeps all indices.
pub proof fn lemma_configure_below(
    run: RunView,
    first: nat,
    specs: Seq<ToolStepSpecView>,
    bound: nat,
)
    requires
        indices_below(run.steps, bound),
    ensures
        configured_steps(run, first, specs) matches Ok(after) ==> indices_below(after.steps, bound),
    decreases specs.len(),
{
    if specs.len() > 0 {
        lemma_configure_below(run, first, specs.drop_last(), bound);
        match configured_steps(run, first, specs.drop_last()) {
            Ok(before) => {
                let index = (first + specs.len() - 1) as nat;
                crate::store::lemma_step_position(before.steps, index);
                match configured_run(before, index, specs.last()) {
                    Ok(after) => {
                        assert forall|i: int| 0 <= i < after.steps.len() implies (
                        #[trigger] after.steps[i]).index < bound by {
                            assert(before.steps[i].index < bound);
                        }
                    },
                    Err(_) => {},
                }
            },
            Err(_) => {},
        }
    }
}

// The repair of one place

/// What is to be repaired.
#[derive(Debug)]
pub struct FixOrder {
    pub run_id: String,
    pub workspace: String,
    pub path: String,
    pub find: String,
    pub replace: String,
    pub pause_ms: u64,
    pub style: PathStyle,
}

/// The mathematical form of what is to be repaired.
pub struct FixOrderView {
    pub run_id: Seq<char>,
    pub workspace: Seq<char>,
    pub path: Seq<char>,
    pub find: Seq<char>,
    pub replace: Seq<char>,
    pub pause_ms: nat,
    pub style: PathStyle,
}

impl View for FixOrder {
    type V = FixOrderView;

    open spec fn view(&self) -> FixOrderView {
        FixOrderView {
            run_id: self.run_id@,
            workspace: self.workspace@,
            path: self.path@,
            find: self.find@,
            replace: self.replace@,
            pause_ms: self.pause_ms as nat,
            style: self.style,
        }
    }
}

/// What a repair came to.
#[derive(Debug)]
pub struct RepoFixResult {
    pub run_id: String,
    pub output: String,
}

/// The mathematical form of what a repair came to.
pub struct RepoFixResultView {
    pub run_id: Seq<char>,
    pub output: Seq<char>,
}

impl View for RepoFixResult {
    type V = RepoFixResultView;

    open spec fn view(&self) -> RepoFixResultView {
        RepoFixResultView { run_id: self.run_id@, output: self.output@ }
    }
}

/// How far a repair has come.
#[derive(Debug)]
pub enum FixPhase {
    Opening,
    Reading { root: String, router: ToolRouter, call: ToolCall },
    Working { session: Session, replacement: String },
    Closed,
}

/// The mathematical form of a phase of a repair.
pub enum FixPhaseView {
    Opening,
    Reading { root: Seq<char>, policy: PolicyView, call: ToolCallView },
    Working { session: SessionView, replacement: Seq<char> },
    Closed,
}

impl View for FixPhase {
    type V = FixPhaseView;

    open spec fn view(&self) -> FixPhaseView {
        match self {
            FixPhase::Opening => FixPhaseView::Opening,
            FixPhase::Reading { root, router, call } => FixPhaseView::Reading {
                root: root@,
                policy: router@,
                call: call@,
            },
            FixPhase::Working { session, replacement } => FixPhaseView::Working {
                session: session@,
                replacement: replacement@,
            },
            FixPhase::Closed => FixPhaseView::Closed,
        }
    }
}

/// A repair in work.
#[derive(Debug)]
pub struct RepoFix {
    pub order: FixOrder,
    pub phase: FixPhase,
}

/// The mathematical form of a repair in work.
pub struct RepoFixView {
    pub order: FixOrderView,
    pub phase: FixPhaseView,
}

impl View for RepoFix {
    type V = RepoFixView;

    open spec fn view(&self) -> RepoFixView {
        RepoFixView { order: self.order@, phase: self.phase@ }
    }
}

/// What a repair asks for, or what it came to.
#[derive(Debug)]
pub enum FixStep {
    Ask(SessionRequest),
    Done(Result<RepoFixResult, ExecutionError>),
}

/// The mathematical form of what a repair asks for.
pub enum FixStepView {
    Ask(SessionRequestView),
    Done(Result<RepoFixResultView, ExecutionErrorView>),
}

impl View for FixStep {
    type V = FixStepView;

    open spec fn view(&self) -> FixStepView {
        match self {
            FixStep::Ask(request) => FixStepView::Ask(request@),
            FixStep::Done(result) => FixStepView::Done(res_view(*result)),
        }
    }
}

/// The text of a file with its one place replaced; an error unless there is
/// exactly one.
pub open spec fn edited(
    source: Seq<char>,
    path: Seq<char>,
    find: Seq<char>,
    replace: Seq<char>,
) -> Result<Seq<char>, ExecutionErrorView> {
    if occurrences(source, find, 0) != 1 {
        Err(
            ExecutionErrorView::GateFailed(
                "repo-fix expected exactly one match in `"@ + path + "`"@,
            ),
        )
    } else {
        Ok(replaced_once(source, find, replace))
    }
}

/// What is said of a repair that begins.
pub open spec fn fix_payload(
    path: Seq<char>,
    source: Seq<char>,
    replacement: Seq<char>,
) -> Seq<char> {
    "agent=repo-fix path="@ + path + " before_sha256="@ + text_hash(source) + " after_sha256="@
        + text_hash(replacement)
}

/// The run of a repair.
pub open spec fn fix_run(
    order: FixOrderView,
    root: Seq<char>,
    source: Seq<char>,
    replacement: Seq<char>,
) -> Result<RunView, StoreErrorView> {
    match created_run(order.run_id, step_sequence(4)) {
        Err(error) => Err(error),
        Ok(run) => configured_steps(
            with_event(
                run,
                "agent.created"@,
                None,
                fix_payload(order.path, source, replacement),
            ),
            0,
            fix_specs(order.run_id, 0, root, order.path, replacement, order.replace),
        ),
    }
}

/// A repair that is over.
pub open spec fn fix_over(
    order: FixOrderView,
    result: Result<RepoFixResultView, ExecutionErrorView>,
) -> (RepoFixView, FixStepView) {
    (RepoFixView { order, phase: FixPhaseView::Closed }, FixStepView::Done(result))
}

/// A repair that has read its file.
pub open spec fn fix_edits(order: FixOrderView, root: Seq<char>, source: Seq<char>) -> (
    RepoFixView,
    FixStepView,
) {
    match edited(source, order.path, order.find, order.replace) {
        Err(error) => fix_over(order, Err(error)),
        Ok(replacement) => match fix_run(order, root, source, replacement) {
            Err(error) => fix_over(order, Err(ExecutionErrorView::Store(error))),
            Ok(run) => (
                RepoFixView {
                    order,
                    phase: FixPhaseView::Working {
                        session: session_started(run, order.pause_ms, order.style),
                        replacement,
                    },
                },
                FixStepView::Ask(SessionRequestView::Proceed),
            ),
        },
    }
}

/// A repair that reads its file.
pub open spec fn fix_reads(
    order: FixOrderView,
    root: Seq<char>,
    policy: PolicyView,
    next: (ToolCallView, ToolProgressView),
) -> (RepoFixView, FixStepView) {
    match next.1 {
        ToolProgressView::Ask(request) => (
            RepoFixView {
                order,
                phase: FixPhaseView::Reading { root, policy, call: next.0 },
            },
            FixStepView::Ask(SessionRequestView::File(request)),
        ),
        ToolProgressView::Done(Ok(ToolOutputView::Contents(source))) => fix_edits(
            order,
            root,
            source,
        ),
        ToolProgressView::Done(Ok(_)) => fix_over(
            order,
            Err(ExecutionErrorView::Sandbox(reply_mismatch())),
        ),
        ToolProgressView::Done(Err(error)) => fix_over(
            order,
            Err(ExecutionErrorView::Sandbox(error)),
        ),
    }
}

/// A repair whose run goes on or ends.
pub open spec fn fix_works(
    order: FixOrderView,
    replacement: Seq<char>,
    next: (SessionView, SessionRequestView),
) -> (RepoFixView, FixStepView) {
    (
        RepoFixView {
            order,
            phase: FixPhaseView::Working { session: next.0, replacement },
        },
        match next.1 {
            SessionRequestView::Done(Ok(())) => FixStepView::Done(
                Ok(RepoFixResultView { run_id: order.run_id, output: replacement }),
            ),
            SessionRequestView::Done(Err(error)) => FixStepView::Done(Err(error)),
            request => FixStepView::Ask(request),
        },
    )
}

/// How a repair begins.
pub open spec fn fix_started(order: FixOrderView) -> (RepoFixView, FixStepView) {
    if order.find.len() == 0 {
        fix_over(
            order,
            Err(ExecutionErrorView::GateFailed("repo-fix requires non-empty search text"@)),
        )
    } else {
        (
            RepoFixView { order, phase: FixPhaseView::Opening },
            FixStepView::Ask(SessionRequestView::Open(order.workspace)),
        )
    }
}

/// What a repair does when it is told something.
pub open spec fn fix_next(fix: RepoFixView, reply: SessionReplyView) -> (RepoFixView, FixStepView) {
    match (fix.phase, reply) {
        (FixPhaseView::Opening, SessionReplyView::Opened { canonical, is_directory }) => {
            match workspace_root(canonical, is_directory) {
                Err(error) => fix_over(fix.order, Err(ExecutionErrorView::Sandbox(error))),
                Ok(root) => {
                    let policy = workspace_policy(root, fix.order.style);
                    fix_reads(
                        fix.order,
                        root,
                        policy,
                        call_started(policy, ToolActionView::ReadFile(fix.order.path), false),
                    )
                },
            }
        },
        (FixPhaseView::Reading { root, policy, call }, SessionReplyView::File(reply)) => fix_reads(
            fix.order,
            root,
            policy,
            call_resumed(policy, call, reply),
        ),
        (FixPhaseView::Working { session, replacement }, reply) => fix_works(
            fix.order,
            replacement,
            session_next(session, reply),
        ),
        _ => fix_over(fix.order, Err(ExecutionErrorView::Sandbox(reply_mismatch()))),
    }
}

/// Whether the numbers in a repair fit the machine.
pub open spec fn fix_fits(fix: RepoFixView) -> bool {
    match fix.phase {
        FixPhaseView::Opening => fix.order.find.len() > 0,
        FixPhaseView::Reading { .. } => fix.order.find.len() > 0,
        FixPhaseView::Working { session, .. } => session_fits(session),
        FixPhaseView::Closed => true,
    }
}

/// Replaces the one place at which a text stands in a file.
pub fn edit(source: &str, path: &str, find: &str, replace: &str) -> (result: Result<
    String,
    ExecutionError,
>)
    requires
        find@.len() > 0,
    ensures
        res_view(result) == edited(source@, path@, find@, replace@),
{
    if count_text(source, find) != 1 {
        let mut text = "repo-fix expected exactly one match in `".to_owned();
        text.append(path);
        text.append("`");
        return Err(ExecutionError::GateFailed(text));
    }
    Ok(replace_once(source, find, replace))
}

fn create_fix_run(order: &FixOrder, root: &str, source: &str, replacement: &str) -> (result: Result<
    RunRecord,
    StoreError,
>)
    ensures
        res_view(result) == fix_run(order@, root@, source@, replacement@),
        result is Ok ==> indices_below(result->Ok_0@.steps, 4),
{
    let definitions = StepDefinition::sequence(4);
    let mut record = match RunRecord::create(order.run_id.as_str(), &definitions) {
        Err(error) => return Err(error),
        Ok(record) => record,
    };
    proof {
        lemma_add_below(Seq::empty(), step_sequence(4), 4);
    }
    let mut payload = "agent=repo-fix path=".to_owned();
    payload.append(order.path.as_str());
    payload.append(" before_sha256=");
    payload.append(hash_text(source).as_str());
    payload.append(" after_sha256=");
    payload.append(hash_text(replacement).as_str());
    record.record_event("agent.created", None, payload.as_str());
    let specs = repair_specs(
        order.run_id.as_str(),
        0,
        root,
        order.path.as_str(),
        replacement,
        order.replace.as_str(),
    );
    proof {
        lemma_configure_below(record@, 0, views(specs@), 4);
        assert(specs@.len() == views(specs@).len());
    }
    match configure_steps(&mut record, 0, &specs) {
        Err(error) => Err(error),
        Ok(()) => Ok(record),
    }
}

impl RepoFix {
    fn over(order: FixOrder, result: Result<RepoFixResult, ExecutionError>) -> (next: (
        RepoFix,
        FixStep,
    ))
        ensures
            (next.0@, next.1@) == fix_over(order@, res_view(result)),
            fix_fits(next.0@),
    {
        (RepoFix { order, phase: FixPhase::Closed }, FixStep::Done(result))
    }

    fn edits(order: FixOrder, root: &str, source: &str) -> (next: (RepoFix, FixStep))
        requires
            order@.find.len() > 0,
        ensures
            (next.0@, next.1@) == fix_edits(order@, root@, source@),
            fix_fits(next.0@),
    {
        let edit = edit(source, order.path.as_str(), order.find.as_str(), order.replace.as_str());
        let replacement = match edit {
            Err(error) => return RepoFix::over(order, Err(error)),
            Ok(replacement) => replacement,
        };
        match create_fix_run(&order, root, source, replacement.as_str()) {
            Err(error) => RepoFix::over(order, Err(ExecutionError::Store(error))),
            Ok(record) => {
                let session = resume_run_with_pause(record, order.pause_ms, order.style);
                (
                    RepoFix { order, phase: FixPhase::Working { session, replacement } },
                    FixStep::Ask(SessionRequest::Proceed),
                )
            },
        }
    }

    fn reads(order: FixOrder, root: String, router: ToolRouter, next: (ToolCall, ToolProgress)) -> (after:
        (RepoFix, FixStep))
        requires
            order@.find.len() > 0,
        ensures
            (after.0@, after.1@) == fix_reads(order@, root@, router@, (next.0@, next.1@)),
            fix_fits(after.0@),
    {
        match next.1 {
            ToolProgress::Ask(request) => (
                RepoFix { order, phase: FixPhase::Reading { root, router, call: next.0 } },
                FixStep::Ask(SessionRequest::File(request)),
            ),
            ToolProgress::Done(Ok(ToolOutput::Contents(source))) => RepoFix::edits(
                order,
                root.as_str(),
                source.as_str(),
            ),
            ToolProgress::Done(Ok(_)) => RepoFix::over(
                order,
                Err(ExecutionError::Sandbox(mismatched())),
            ),
            ToolProgress::Done(Err(error)) => RepoFix::over(
                order,
                Err(ExecutionError::Sandbox(error)),
            ),
        }
    }

    fn works(order: FixOrder, replacement: String, next: (Session, SessionRequest)) -> (after: (
        RepoFix,
        FixStep,
    ))
        requires
            session_fits(next.0@),
        ensures
            (after.0@, after.1@) == fix_works(order@, replacement@, (next.0@, next.1@)),
            fix_fits(after.0@),
    {
        let step = match next.1 {
            SessionRequest::Done(Ok(())) => FixStep::Done(
                Ok(RepoFixResult { run_id: order.run_id.clone(), output: replacement.clone() }),
            ),
            SessionRequest::Done(Err(error)) => FixStep::Done(Err(error)),
            request => FixStep::Ask(request),
        };
        (RepoFix { order, phase: FixPhase::Working { session: next.0, replacement } }, step)
    }

    /// Goes on with the repair when it is told what came of the last request.
    pub fn advance(self, reply: SessionReply) -> (next: (RepoFix, FixStep))
        requires
            fix_fits(self@),
        ensures
            (next.0@, next.1@) == fix_next(self@, reply@),
            fix_fits(next.0@),
    {
        let order = self.order;
        match (self.phase, reply) {
            (FixPhase::Opening, SessionReply::Opened { canonical, is_directory }) => {
                let policy = match Policy::workspace(canonical, is_directory, order.style) {
                    Err(error) => return RepoFix::over(
                        order,
                        Err(ExecutionError::Sandbox(error)),
                    ),
                    Ok(policy) => policy,
                };
                let root = policy.root().to_owned();
                let router = ToolRouter::new(policy);
                let next = router.read_file(order.path.as_str());
                RepoFix::reads(order, root, router, next)
            },
            (FixPhase::Reading { root, router, call }, SessionReply::File(reply)) => {
                let next = router.resume(call, reply);
                RepoFix::reads(order, root, router, next)
            },
            (FixPhase::Working { session, replacement }, reply) => {
                let next = session.advance(reply);
                RepoFix::works(order, replacement, next)
            },
            _ => RepoFix::over(order, Err(ExecutionError::Sandbox(mismatched()))),
        }
    }

    /// The run of the repair, as soon as there is one. It is to be kept before
    /// each request is carried out.
    pub fn record(&self) -> (record: Option<&RunRecord>)
        ensures
            match self@.phase {
                FixPhaseView::Working { session, .. } => record is Some && record->0@
                    == session.run,
                _ => record is None,
            },
    {
        match &self.phase {
            FixPhase::Working { session, .. } => Some(&session.record),
            _ => None,
        }
    }
}

fn mismatched() -> (error: SandboxError)
    ensures
        error@ == reply_mismatch(),
{
    SandboxError::Io("the host gave an answer of another kind".to_owned())
}

/// Begins a repair without a pause.
pub fn repo_fix(
    run_id: &str,
    workspace: &str,
    relative_path: &str,
    find: &str,
    replace: &str,
    style: PathStyle,
) -> (next: (RepoFix, FixStep))
    ensures
        (next.0@, next.1@) == fix_started(
            FixOrderView {
                run_id: run_id@,
                workspace: workspace@,
                path: relative_path@,
                find: find@,
                replace: replace@,
                pause_ms: 0,
                style,
            },
        ),
        fix_fits(next.0@),
{
    repo_fix_with_options(
        FixOrder {
            run_id: run_id.to_owned(),
            workspace: workspace.to_owned(),
            path: relative_path.to_owned(),
            find: find.to_owned(),
            replace: replace.to_owned(),
            pause_ms: 0,
            style,
        },
    )
}

/// Begins a repair.
pub fn repo_fix_with_options(order: FixOrder) -> (next: (RepoFix, FixStep))
    ensures
        (next.0@, next.1@) == fix_started(order@),
        fix_fits(next.0@),
{
    if order.find.as_str().is_empty() {
        return RepoFix::over(
            order,
            Err(
                ExecutionError::GateFailed("repo-fix requires non-empty search text".to_owned()),
            ),
        );
    }
    let workspace = order.workspace.clone();
    (
        RepoFix { order, phase: FixPhase::Opening },
        FixStep::Ask(SessionRequest::Open(workspace)),
    )
}

// Laws

/// Whether actions read, write, read and check one file.
pub open spec fn repairs_file(actions: Seq<PlanActionView>, path: Seq<char>) -> bool {
    &&& actions.len() == 4
    &&& actions[0] matches PlanActionView::Read { path: own } && own == path
    &&& actions[1] matches PlanActionView::Write { path: own, .. } && own == path
    &&& actions[2] matches PlanActionView::Read { path: own } && own == path
    &&& actions[3] matches PlanActionView::GateContains { path: own, .. } && own == path
}

/// A plan proposes a repair exactly if it reads, writes, reads and checks, in
/// this order and nothing else, and does all of it to one file. The repair is
/// then of that file, with what the plan writes, the text that it checks for and
/// its summary.
pub proof fn plans_are_repairs_of_one_file(plan: AgentPlanView)
    ensures
        fix_plan(plan) is Ok <==> exists|path: Seq<char>|
            #[trigger] repairs_file(plan.actions, path),
        fix_plan(plan) matches Ok(fix) ==> {
            &&& plan.actions[0] == (PlanActionView::Read { path: fix.path })
            &&& plan.actions[1] == (PlanActionView::Write {
                path: fix.path,
                contents: fix.contents,
            })
            &&& plan.actions[2] == (PlanActionView::Read { path: fix.path })
            &&& plan.actions[3] == (PlanActionView::GateContains {
                path: fix.path,
                expected: fix.expected,
            })
            &&& fix.summary == plan.summary
        },
        fix_plan(plan) matches Err(error) ==> error is Plan,
{
    if let Ok(fix) = fix_plan(plan) {
        assert(repairs_file(plan.actions, fix.path));
    }
}

/// An edit is made exactly if its text stands in the source at one place. Where
/// it stands there first and not behind, it is replaced there and nothing else
/// changes; otherwise the edit is refused.
pub proof fn edits_need_one_place(
    front: Seq<char>,
    back: Seq<char>,
    path: Seq<char>,
    find: Seq<char>,
    replace: Seq<char>,
)
    requires
        find.len() > 0,
        !has_text((front + find).drop_last(), find),
    ensures
        !has_text(back, find) ==> edited(front + find + back, path, find, replace) == Ok::<
            Seq<char>,
            ExecutionErrorView,
        >(front + replace + back),
        has_text(back, find) ==> edited(front + find + back, path, find, replace) matches Err(
            ExecutionErrorView::GateFailed(_),
        ),
        forall|source: Seq<char>|
            !(#[trigger] has_text(source, find)) ==> edited(source, path, find, replace) matches
                Err(ExecutionErrorView::GateFailed(_)),
{
    replacement_goes_on_behind_a_match(front, find, back, replace);
    if !has_text(back, find) {
        absent_texts_are_not_replaced(back, find, replace);
    } else {
        lemma_counted(back, find, 0);
    }
    assert forall|source: Seq<char>| !(#[trigger] has_text(source, find)) implies edited(
        source,
        path,
        find,
        replace,
    ) matches Err(ExecutionErrorView::GateFailed(_)) by {
        absent_texts_are_not_replaced(source, find, replace);
    }
}

proof fn lemma_counted(text: Seq<char>, pattern: Seq<char>, from: int)
    requires
        pattern.len() > 0,
        0 <= from,
        exists|at: int| from <= at && matches_at(text, pattern, at),
    ensures
        occurrences(text, pattern, from) > 0,
    decreases text.len() - from,
{
    let at = choose|at: int| from <= at && matches_at(text, pattern, at);
    if !matches_at(text, pattern, from) {
        assert(from + 1 <= at);
        lemma_counted(text, pattern, from + 1);
    }
}

/// The steps of a repair, from an index on: they read the file, write it, read it
/// again and look for the expected text in it. Only the second may write, and
/// each has the key of its run and index.
pub proof fn repairs_have_four_steps(
    run_id: Seq<char>,
    first: nat,
    root: Seq<char>,
    path: Seq<char>,
    contents: Seq<char>,
    expected: Seq<char>,
    i: int,
)
    requires
        0 <= i < 4,
    ensures
        ({
            let specs = fix_specs(run_id, first, root, path, contents, expected);
            &&& specs.len() == 4
            &&& specs[i].workspace_root == root
            &&& specs[i].path == path
            &&& specs[i].idempotency_key == run_id + ":"@ + decimal((first + i) as nat)
            &&& specs[i].denied_tool is None
            &&& specs[i].max_write_bytes is None
            &&& specs[i].read_only <==> i != 1
            &&& i == 0 || i == 2 ==> specs[i].tool_name == "read_file"@ && specs[i].contents is None
            &&& i == 1 ==> specs[i].tool_name == "write_file"@ && specs[i].contents == Some(
                contents,
            )
            &&& i == 3 ==> specs[i].tool_name == "gate_contains"@ && specs[i].contents == Some(
                expected,
            )
        }),
{
    reveal_strlit(":");
    assert(key_for(run_id, (first + i) as nat) =~= run_id + ":"@ + decimal((first + i) as nat));
}

/// A repair is begun exactly if it has a text to look for, and asks for its
/// workspace first; what it makes of the file is recorded with the digests of
/// the file before and after.
pub proof fn repairs_begin_with_their_workspace(
    order: FixOrderView,
    root: Seq<char>,
    source: Seq<char>,
    replacement: Seq<char>,
)
    ensures
        order.find.len() == 0 ==> fix_started(order).1 matches FixStepView::Done(
            Err(ExecutionErrorView::GateFailed(_)),
        ),
        order.find.len() > 0 ==> fix_started(order).1 == FixStepView::Ask(
            SessionRequestView::Open(order.workspace),
        ),
        fix_started(order).0.order == order,
        fix_run(order, root, source, replacement) matches Ok(run) ==> {
            &&& run.events.len() == 2
            &&& run.events[0].event_type == "run.created"@
            &&& run.events[1].event_type == "agent.created"@
            &&& run.events[1].payload == "agent=repo-fix path="@ + order.path + " before_sha256="@
                + text_hash(source) + " after_sha256="@ + text_hash(replacement)
            &&& run.run_id == order.run_id
        },
{
    let specs = fix_specs(order.run_id, 0, root, order.path, replacement, order.replace);
    if let Ok(run) = created_run(order.run_id, step_sequence(4)) {
        let told = with_event(
            run,
            "agent.created"@,
            None,
            fix_payload(order.path, source, replacement),
        );
        lemma_configured_keeps(told, 0, specs);
    }
}

proof fn lemma_configured_keeps(run: RunView, first: nat, specs: Seq<ToolStepSpecView>)
    ensures
        configured_steps(run, first, specs) matches Ok(after) ==> after.events == run.events
            && after.run_id == run.run_id && after.results == run.results && after.status
            == run.status,
    decreases specs.len(),
{
    if specs.len() > 0 {
        lemma_configured_keeps(run, first, specs.drop_last());
    }
}

/// How a repair goes on: it reads the one file in the workspace that was found,
/// edits what it read, and then does what its session does. Its result is what
/// was written.
pub proof fn repairs_do_what_their_session_does(
    order: FixOrderView,
    session: SessionView,
    replacement: Seq<char>,
    reply: SessionReplyView,
)
    ensures
        ({
            let fix = RepoFixView {
                order,
                phase: FixPhaseView::Working { session, replacement },
            };
            let (next, step) = fix_next(fix, reply);
            let (after, request) = session_next(session, reply);
            &&& next.order == order
            &&& next.phase == (FixPhaseView::Working { session: after, replacement })
            &&& match request {
                SessionRequestView::Done(Ok(())) => step == FixStepView::Done(
                    Ok(RepoFixResultView { run_id: order.run_id, output: replacement }),
                ),
                SessionRequestView::Done(Err(error)) => step == FixStepView::Done(Err(error)),
                _ => step == FixStepView::Ask(request),
            }
        }),
{
}

/// What a repair makes of the file that it reads in the workspace that was found:
/// an edit that is refused or a file that cannot be read ends it, and otherwise
/// its run is created and taken up.
pub proof fn repairs_edit_what_they_read(
    order: FixOrderView,
    root: Seq<char>,
    policy: PolicyView,
    call: ToolCallView,
    reply: FileReplyView,
    found: Result<Seq<char>, Seq<char>>,
)
    ensures
        ({
            let fix = RepoFixView {
                order,
                phase: FixPhaseView::Reading { root, policy, call },
            };
            let (next, step) = fix_next(fix, SessionReplyView::File(reply));
            match call_resumed(policy, call, reply).1 {
                ToolProgressView::Ask(asked) => step == FixStepView::Ask(
                    SessionRequestView::File(asked),
                ),
                ToolProgressView::Done(Err(error)) => step == FixStepView::Done(
                    Err(ExecutionErrorView::Sandbox(error)),
                ),
                ToolProgressView::Done(Ok(ToolOutputView::Contents(source))) => match edited(
                    source,
                    order.path,
                    order.find,
                    order.replace,
                ) {
                    Err(error) => step == FixStepView::Done(Err(error)) && next.phase is Closed,
                    Ok(replacement) => match fix_run(order, root, source, replacement) {
                        Ok(run) => {
                            &&& step == FixStepView::Ask(SessionRequestView::Proceed)
                            &&& next.phase == (FixPhaseView::Working {
                                session: session_started(run, order.pause_ms, order.style),
                                replacement,
                            })
                        },
                        Err(error) => step == FixStepView::Done(
                            Err(ExecutionErrorView::Store(error)),
                        ),
                    },
                },
                _ => step matches FixStepView::Done(Err(_)),
            }
        }),
        ({
            let fix = RepoFixView { order, phase: FixPhaseView::Opening };
            let opened = SessionReplyView::Opened { canonical: found, is_directory: true };
            let (next, step) = fix_next(fix, opened);
            match found {
                Err(message) => step == FixStepView::Done(
                    Err(ExecutionErrorView::Sandbox(SandboxErrorView::Io(message))),
                ),
                Ok(root) => {
                    let begun = call_started(
                        workspace_policy(root, order.style),
                        ToolActionView::ReadFile(order.path),
                        false,
                    );
                    begun.1 matches ToolProgressView::Ask(asked) ==> {
                        &&& step == FixStepView::Ask(SessionRequestView::File(asked))
                        &&& next.phase == (FixPhaseView::Reading {
                            root,
                            policy: workspace_policy(root, order.style),
                            call: begun.0,
                        })
                    }
                },
            }
        }),
{
}

} // verus!
