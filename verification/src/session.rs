//! Working through a run step by step, so that it can be taken up again after
//! any interruption.
//!
//! A session never touches the outside itself. It says what is to be done next
//! and is told what came of it. Whoever drives it keeps the run durably before
//! carrying out each request.

use crate::audit::{hash_text, text_hash};
use crate::exec::{opt_count, plain_output, ExecutionError, ExecutionErrorView};
use crate::gate::{
    gate_resumed, gate_started, gate_text, resume_gate, start_gate, GateCheck, GateCheckView,
    GateQuestion, GateQuestionView, GateStep, GateStepView,
};
use crate::history::one_more_event;
use crate::number::decimal;
use crate::path::PathStyle;
use crate::run::{idempotency_key, key_for};
use crate::sandbox::{
    action_path, action_tool, call_resumed, call_started, output_text, read_only_policy,
    reply_mismatch, sandbox_error_text, tool_name, tool_name_reads_back, tool_of, workspace_policy,
    workspace_root, FileReply, FileReplyView, FileRequest, FileRequestView, Policy, PolicyView,
    SandboxError, SandboxErrorView, Tool, ToolAction, ToolActionView, ToolCall, ToolCallView,
    ToolOutputView, ToolProgress, ToolProgressView, ToolRouter,
};
use crate::store::{
    completed_run, find_step, finished_run, key_payload, lemma_step_position, missing_step,
    result_for, started_run, step_position, with_event, with_result, RunRecord, RunView,
    StoreError, StoreErrorView, StoredStep, StoredStepView, ToolResultView, ToolStepSpec,
    ToolStepSpecView,
};
use crate::text::{joined, res_view, same_text, unit_view, views};
use vstd::prelude::*;
use vstd::string::StringExecFns;

verus! {

// Tasks

/// What a step has to do with its workspace.
#[derive(Debug)]
pub enum TaskWork {
    Use(ToolAction),
    Check { path: String, expected: String },
}

/// The mathematical form of what a step has to do.
pub enum TaskWorkView {
    Use(ToolActionView),
    Check { path: Seq<char>, expected: Seq<char> },
}

impl View for TaskWork {
    type V = TaskWorkView;

    open spec fn view(&self) -> TaskWorkView {
        match self {
            TaskWork::Use(action) => TaskWorkView::Use(action@),
            TaskWork::Check { path, expected } => TaskWorkView::Check {
                path: path@,
                expected: expected@,
            },
        }
    }
}

/// A step as it is carried out.
#[derive(Debug)]
pub struct StepTask {
    pub key: String,
    pub root: String,
    pub read_only: bool,
    pub denied: Option<Tool>,
    pub max_write_bytes: Option<usize>,
    pub work: TaskWork,
}

/// The mathematical form of a step as it is carried out.
pub struct StepTaskView {
    pub key: Seq<char>,
    pub root: Seq<char>,
    pub read_only: bool,
    pub denied: Option<Tool>,
    pub max_write_bytes: Option<nat>,
    pub work: TaskWorkView,
}

impl View for StepTask {
    type V = StepTaskView;

    open spec fn view(&self) -> StepTaskView {
        StepTaskView {
            key: self.key@,
            root: self.root@,
            read_only: self.read_only,
            denied: self.denied,
            max_write_bytes: opt_count(self.max_write_bytes),
            work: self.work@,
        }
    }
}

/// What is said of a stored step that makes no sense.
pub open spec fn senseless(message: Seq<char>) -> ExecutionErrorView {
    ExecutionErrorView::Store(StoreErrorView::InvalidStatus(message))
}

/// What is said of a tool that is not known.
pub open spec fn unknown_tool(name: Seq<char>) -> ExecutionErrorView {
    senseless("unknown tool `"@ + name + "`"@)
}

/// What a stored step has to do with its workspace.
pub open spec fn work_of(spec: ToolStepSpecView) -> Result<TaskWorkView, ExecutionErrorView> {
    if spec.tool_name == "gate_contains"@ {
        match spec.contents {
            Some(expected) => Ok(TaskWorkView::Check { path: spec.path, expected }),
            None => Err(senseless("gate step has no expected text"@)),
        }
    } else {
        match tool_of(spec.tool_name) {
            None => Err(unknown_tool(spec.tool_name)),
            Some(Tool::ReadFile) => Ok(TaskWorkView::Use(ToolActionView::ReadFile(spec.path))),
            Some(Tool::WriteFile) => match spec.contents {
                Some(contents) => Ok(
                    TaskWorkView::Use(ToolActionView::WriteFile { path: spec.path, contents }),
                ),
                None => Err(senseless("write step has no contents"@)),
            },
            Some(Tool::ListDir) => Ok(TaskWorkView::Use(ToolActionView::ListDir(spec.path))),
            Some(Tool::RunTests) => Ok(TaskWorkView::Use(ToolActionView::RunTests)),
        }
    }
}

/// The tool that a stored step denies itself.
pub open spec fn denied_of(spec: ToolStepSpecView) -> Result<Option<Tool>, ExecutionErrorView> {
    match spec.denied_tool {
        None => Ok(None),
        Some(name) => match tool_of(name) {
            None => Err(unknown_tool(name)),
            Some(tool) => Ok(Some(tool)),
        },
    }
}

/// A stored step as it is carried out.
pub open spec fn task_of(spec: ToolStepSpecView) -> Result<StepTaskView, ExecutionErrorView> {
    match (work_of(spec), denied_of(spec)) {
        (Err(error), _) => Err(error),
        (_, Err(error)) => Err(error),
        (Ok(work), Ok(denied)) => Ok(
            StepTaskView {
                key: spec.idempotency_key,
                root: spec.workspace_root,
                read_only: spec.read_only,
                denied,
                max_write_bytes: spec.max_write_bytes,
                work,
            },
        ),
    }
}

/// The policy under which a step works, from what the host found at its root.
/// A check never writes.
pub open spec fn task_policy(
    task: StepTaskView,
    canonical: Result<Seq<char>, Seq<char>>,
    is_directory: bool,
    style: PathStyle,
) -> Result<PolicyView, SandboxErrorView> {
    match workspace_root(canonical, is_directory) {
        Err(error) => Err(error),
        Ok(root) => {
            let base = if task.read_only || task.work is Check {
                read_only_policy(root, style)
            } else {
                workspace_policy(root, style)
            };
            Ok(
                PolicyView {
                    tools: match task.denied {
                        Some(tool) => base.tools.remove(tool),
                        None => base.tools,
                    },
                    max_write_bytes: task.max_write_bytes,
                    ..base
                },
            )
        },
    }
}

fn invalid(message: &str) -> (error: ExecutionError)
    ensures
        error@ == senseless(message@),
{
    ExecutionError::Store(StoreError::InvalidStatus(message.to_owned()))
}

fn say_unknown_tool(name: &str) -> (error: ExecutionError)
    ensures
        error@ == unknown_tool(name@),
{
    let mut text = "unknown tool `".to_owned();
    text.append(name);
    text.append("`");
    invalid(text.as_str())
}

fn read_work(spec: &ToolStepSpec) -> (result: Result<TaskWork, ExecutionError>)
    ensures
        res_view(result) == work_of(spec@),
{
    if same_text(spec.tool_name.as_str(), "gate_contains") {
        return match &spec.contents {
            Some(expected) => Ok(
                TaskWork::Check { path: spec.path.clone(), expected: expected.clone() },
            ),
            None => Err(invalid("gate step has no expected text")),
        };
    }
    match Tool::parse(spec.tool_name.as_str()) {
        None => Err(say_unknown_tool(spec.tool_name.as_str())),
        Some(Tool::ReadFile) => Ok(TaskWork::Use(ToolAction::ReadFile(spec.path.clone()))),
        Some(Tool::WriteFile) => match &spec.contents {
            Some(contents) => Ok(
                TaskWork::Use(
                    ToolAction::WriteFile { path: spec.path.clone(), contents: contents.clone() },
                ),
            ),
            None => Err(invalid("write step has no contents")),
        },
        Some(Tool::ListDir) => Ok(TaskWork::Use(ToolAction::ListDir(spec.path.clone()))),
        Some(Tool::RunTests) => Ok(TaskWork::Use(ToolAction::RunTests)),
    }
}

impl StepTask {
    /// A stored step as it is carried out.
    pub fn from_spec(spec: &ToolStepSpec) -> (result: Result<StepTask, ExecutionError>)
        ensures
            res_view(result) == task_of(spec@),
    {
        let work = match read_work(spec) {
            Err(error) => return Err(error),
            Ok(work) => work,
        };
        let denied = match &spec.denied_tool {
            None => None,
            Some(name) => match Tool::parse(name.as_str()) {
                None => return Err(say_unknown_tool(name.as_str())),
                Some(tool) => Some(tool),
            },
        };
        Ok(
            StepTask {
                key: spec.idempotency_key.clone(),
                root: spec.workspace_root.clone(),
                read_only: spec.read_only,
                denied,
                max_write_bytes: spec.max_write_bytes,
                work,
            },
        )
    }

    /// The policy under which the step works.
    pub fn policy(&self, canonical: Result<String, String>, is_directory: bool, style: PathStyle) -> (result:
        Result<Policy, SandboxError>)
        ensures
            res_view(result) == task_policy(self@, res_view(canonical), is_directory, style),
    {
        let is_check = match &self.work {
            TaskWork::Check { .. } => true,
            TaskWork::Use(_) => false,
        };
        let opened = if self.read_only || is_check {
            Policy::read_only(canonical, is_directory, style)
        } else {
            Policy::workspace(canonical, is_directory, style)
        };
        match opened {
            Err(error) => Err(error),
            Ok(policy) => {
                let limited = match self.max_write_bytes {
                    Some(limit) => policy.with_max_write_bytes(limit),
                    None => policy,
                };
                match self.denied {
                    Some(tool) => Ok(limited.deny_tool(tool)),
                    None => Ok(limited),
                }
            },
        }
    }
}

// Sessions

/// How far a session has come. `position` is where the step stands among the
/// steps of the run.
#[derive(Debug)]
pub enum SessionPhase {
    Scanning { position: usize },
    Opening { position: usize, index: usize, task: StepTask },
    Using { position: usize, index: usize, key: String, router: ToolRouter, call: ToolCall },
    Checking { position: usize, index: usize, check: GateCheck },
    Pausing { position: usize, index: usize, output: String },
    Closed,
}

/// The mathematical form of a phase.
pub enum SessionPhaseView {
    Scanning { position: nat },
    Opening { position: nat, index: nat, task: StepTaskView },
    Using { position: nat, index: nat, key: Seq<char>, policy: PolicyView, call: ToolCallView },
    Checking { position: nat, index: nat, check: GateCheckView },
    Pausing { position: nat, index: nat, output: Seq<char> },
    Closed,
}

impl View for SessionPhase {
    type V = SessionPhaseView;

    open spec fn view(&self) -> SessionPhaseView {
        match self {
            SessionPhase::Scanning { position } => SessionPhaseView::Scanning {
                position: *position as nat,
            },
            SessionPhase::Opening { position, index, task } => SessionPhaseView::Opening {
                position: *position as nat,
                index: *index as nat,
                task: task@,
            },
            SessionPhase::Using { position, index, key, router, call } => SessionPhaseView::Using {
                position: *position as nat,
                index: *index as nat,
                key: key@,
                policy: router@,
                call: call@,
            },
            SessionPhase::Checking { position, index, check } => SessionPhaseView::Checking {
                position: *position as nat,
                index: *index as nat,
                check: check@,
            },
            SessionPhase::Pausing { position, index, output } => SessionPhaseView::Pausing {
                position: *position as nat,
                index: *index as nat,
                output: output@,
            },
            SessionPhase::Closed => SessionPhaseView::Closed,
        }
    }
}

/// The work on one run.
#[derive(Debug)]
pub struct Session {
    pub record: RunRecord,
    pub pause_ms: u64,
    pub style: PathStyle,
    pub phase: SessionPhase,
}

/// The mathematical form of a session.
pub struct SessionView {
    pub run: RunView,
    pub pause_ms: nat,
    pub style: PathStyle,
    pub phase: SessionPhaseView,
}

impl View for Session {
    type V = SessionView;

    open spec fn view(&self) -> SessionView {
        SessionView {
            run: self.record@,
            pause_ms: self.pause_ms as nat,
            style: self.style,
            phase: self.phase@,
        }
    }
}

/// What a session asks for: to keep the run and come back, to look at a
/// workspace, to serve a tool, to wait, or nothing any more.
#[derive(Debug)]
pub enum SessionRequest {
    Proceed,
    Open(String),
    File(FileRequest),
    Pause(u64),
    Done(Result<(), ExecutionError>),
}

/// The mathematical form of what a session asks for.
pub enum SessionRequestView {
    Proceed,
    Open(Seq<char>),
    File(FileRequestView),
    Pause(nat),
    Done(Result<(), ExecutionErrorView>),
}

impl View for SessionRequest {
    type V = SessionRequestView;

    open spec fn view(&self) -> SessionRequestView {
        match self {
            SessionRequest::Proceed => SessionRequestView::Proceed,
            SessionRequest::Open(root) => SessionRequestView::Open(root@),
            SessionRequest::File(request) => SessionRequestView::File(request@),
            SessionRequest::Pause(time) => SessionRequestView::Pause(*time as nat),
            SessionRequest::Done(result) => SessionRequestView::Done(unit_view(*result)),
        }
    }
}

/// What a session is told: that the run is kept and any pause is over, what was
/// found at the root of a workspace, or what the host answered a tool.
#[derive(Debug)]
pub enum SessionReply {
    Proceed,
    Opened { canonical: Result<String, String>, is_directory: bool },
    File(FileReply),
}

/// The mathematical form of what a session is told.
pub enum SessionReplyView {
    Proceed,
    Opened { canonical: Result<Seq<char>, Seq<char>>, is_directory: bool },
    File(FileReplyView),
}

impl View for SessionReply {
    type V = SessionReplyView;

    open spec fn view(&self) -> SessionReplyView {
        match self {
            SessionReply::Proceed => SessionReplyView::Proceed,
            SessionReply::Opened { canonical, is_directory } => SessionReplyView::Opened {
                canonical: res_view(*canonical),
                is_directory: *is_directory,
            },
            SessionReply::File(reply) => SessionReplyView::File(reply@),
        }
    }
}

// The rules of a session

/// The position of the first step from a position on that is still to do.
pub open spec fn next_pending(steps: Seq<StoredStepView>, from: nat) -> Option<nat>
    decreases steps.len() - from,
{
    if from >= steps.len() {
        None
    } else if steps[from as int].completed {
        next_pending(steps, from + 1)
    } else {
        Some(from)
    }
}

/// A session that is over.
pub open spec fn session_over(session: SessionView, result: Result<(), ExecutionErrorView>) -> (
    SessionView,
    SessionRequestView,
) {
    (SessionView { phase: SessionPhaseView::Closed, ..session }, SessionRequestView::Done(result))
}

/// A session that completes a step and looks for the next.
pub open spec fn session_completes(
    session: SessionView,
    position: nat,
    index: nat,
    output: Seq<char>,
) -> (SessionView, SessionRequestView) {
    match completed_run(session.run, index, output) {
        Err(error) => session_over(session, Err(ExecutionErrorView::Store(error))),
        Ok(run) => (
            SessionView {
                run,
                phase: SessionPhaseView::Scanning { position: (position + 1) as nat },
                ..session
            },
            SessionRequestView::Proceed,
        ),
    }
}

/// A run in which a recorded result was met again.
pub open spec fn deduplicated_run(run: RunView, index: nat, key: Seq<char>) -> RunView {
    with_event(run, "tool.deduplicated"@, Some(index), key_payload(key))
}

/// A run in which a tool is put to use.
pub open spec fn invoked_run(
    run: RunView,
    index: nat,
    key: Seq<char>,
    action: ToolActionView,
) -> RunView {
    with_event(
        run,
        "tool.invoked"@,
        Some(index),
        "tool="@ + tool_name(action_tool(action)) + " path="@ + action_path(action) + " "@
            + key_payload(key),
    )
}

/// A run in which a tool gave a result, recorded under a key.
pub open spec fn resulted_run(
    run: RunView,
    index: nat,
    key: Seq<char>,
    output: Seq<char>,
) -> RunView {
    with_event(
        with_result(run, key, output),
        "tool.result"@,
        Some(index),
        key_payload(key) + " output_sha256="@ + text_hash(output),
    )
}

/// A run in which a tool was denied or failed.
pub open spec fn stopped_run(run: RunView, index: nat, error: SandboxErrorView) -> RunView {
    with_event(
        run,
        if error is Denied {
            "sandbox.denied"@
        } else {
            "tool.error"@
        },
        Some(index),
        sandbox_error_text(error),
    )
}

/// A session in which the use of a tool goes on or ends.
pub open spec fn session_uses(
    session: SessionView,
    position: nat,
    index: nat,
    key: Seq<char>,
    policy: PolicyView,
    next: (ToolCallView, ToolProgressView),
) -> (SessionView, SessionRequestView) {
    match next.1 {
        ToolProgressView::Ask(request) => (
            SessionView {
                phase: SessionPhaseView::Using { position, index, key, policy, call: next.0 },
                ..session
            },
            SessionRequestView::File(request),
        ),
        ToolProgressView::Done(Ok(output)) => (
            SessionView {
                run: resulted_run(session.run, index, key, output_text(output)),
                phase: SessionPhaseView::Pausing { position, index, output: output_text(output) },
                ..session
            },
            SessionRequestView::Pause(session.pause_ms),
        ),
        ToolProgressView::Done(Err(error)) => session_over(
            SessionView { run: stopped_run(session.run, index, error), ..session },
            Err(ExecutionErrorView::Sandbox(error)),
        ),
    }
}

/// A session in which a gate goes on or ends.
pub open spec fn session_checks(
    session: SessionView,
    position: nat,
    index: nat,
    step: GateStepView,
) -> (SessionView, SessionRequestView) {
    match step {
        GateStepView::Ask(check, request) => (
            SessionView {
                phase: SessionPhaseView::Checking { position, index, check },
                ..session
            },
            SessionRequestView::File(request),
        ),
        GateStepView::Done(result) => {
            let judged = SessionView {
                run: with_event(session.run, "gate.evaluated"@, Some(index), gate_text(result)),
                ..session
            };
            if result.passed {
                session_completes(judged, position, index, result.evidence)
            } else {
                session_over(judged, Err(ExecutionErrorView::GateFailed(gate_text(result))))
            }
        },
    }
}

/// A session in which the workspace of a step was looked at.
pub open spec fn session_opened(
    session: SessionView,
    position: nat,
    index: nat,
    task: StepTaskView,
    policy: Result<PolicyView, SandboxErrorView>,
) -> (SessionView, SessionRequestView) {
    match task.work {
        TaskWorkView::Check { path, expected } => session_checks(
            session,
            position,
            index,
            gate_started(policy, GateQuestionView::Contains { path, expected }),
        ),
        TaskWorkView::Use(action) => match policy {
            Err(error) => session_over(
                SessionView { run: stopped_run(session.run, index, error), ..session },
                Err(ExecutionErrorView::Sandbox(error)),
            ),
            Ok(policy) => session_uses(
                session,
                position,
                index,
                task.key,
                policy,
                call_started(policy, action, false),
            ),
        },
    }
}

/// A session that takes up a step with a stored tool. If a result is recorded
/// under the key of the step, that result completes it and nothing is done
/// again.
pub open spec fn session_takes(
    session: SessionView,
    position: nat,
    index: nat,
    spec: ToolStepSpecView,
) -> (SessionView, SessionRequestView) {
    match result_for(session.run.results, spec.idempotency_key) {
        Some(output) => session_completes(
            SessionView {
                run: deduplicated_run(session.run, index, spec.idempotency_key),
                ..session
            },
            position,
            index,
            output,
        ),
        None => match task_of(spec) {
            Err(error) => session_over(session, Err(error)),
            Ok(task) => (
                SessionView {
                    run: match task.work {
                        TaskWorkView::Use(action) => invoked_run(
                            session.run,
                            index,
                            task.key,
                            action,
                        ),
                        TaskWorkView::Check { .. } => session.run,
                    },
                    phase: SessionPhaseView::Opening { position, index, task },
                    ..session
                },
                SessionRequestView::Open(task.root),
            ),
        },
    }
}

/// A session that looks for the next step.
pub open spec fn session_scans(session: SessionView, from: nat) -> (
    SessionView,
    SessionRequestView,
) {
    match next_pending(session.run.steps, from) {
        None => session_over(SessionView { run: finished_run(session.run), ..session }, Ok(())),
        Some(position) => {
            let step = session.run.steps[position as int];
            match step.spec {
                None => session_completes(session, position, step.index, plain_output(step.id)),
                Some(spec) => session_takes(session, position, step.index, spec),
            }
        },
    }
}

/// What a session does when it is told something.
pub open spec fn session_next(session: SessionView, reply: SessionReplyView) -> (
    SessionView,
    SessionRequestView,
) {
    match (session.phase, reply) {
        (SessionPhaseView::Scanning { position }, SessionReplyView::Proceed) => session_scans(
            session,
            position,
        ),
        (
            SessionPhaseView::Opening { position, index, task },
            SessionReplyView::Opened { canonical, is_directory },
        ) => session_opened(
            session,
            position,
            index,
            task,
            task_policy(task, canonical, is_directory, session.style),
        ),
        (
            SessionPhaseView::Using { position, index, key, policy, call },
            SessionReplyView::File(reply),
        ) => session_uses(
            session,
            position,
            index,
            key,
            policy,
            call_resumed(policy, call, reply),
        ),
        (SessionPhaseView::Checking { position, index, check }, SessionReplyView::File(reply)) => {
            session_checks(session, position, index, gate_resumed(check, reply))
        },
        (SessionPhaseView::Pausing { position, index, output }, SessionReplyView::Proceed) => {
            session_completes(session, position, index, output)
        },
        _ => session_over(session, Err(ExecutionErrorView::Sandbox(reply_mismatch()))),
    }
}

/// A session that takes up a run.
pub open spec fn session_started(run: RunView, pause_ms: nat, style: PathStyle) -> SessionView {
    SessionView {
        run: started_run(run),
        pause_ms,
        style,
        phase: SessionPhaseView::Scanning { position: 0 },
    }
}

/// A session that takes up a run at one step, with a policy and an action given
/// for it.
pub open spec fn tool_session_started(
    run: RunView,
    index: nat,
    policy: PolicyView,
    action: ToolActionView,
    pause_ms: nat,
) -> (SessionView, SessionRequestView) {
    let session = session_started(run, pause_ms, policy.style);
    let key = key_for(run.run_id, index);
    match step_position(run.steps, index) {
        None => session_over(session, Err(ExecutionErrorView::Store(missing_step(run.run_id, index)))),
        Some(position) => if run.steps[position].completed {
            (session, SessionRequestView::Proceed)
        } else {
            match result_for(run.results, key) {
                Some(output) => session_completes(
                    SessionView { run: deduplicated_run(session.run, index, key), ..session },
                    position as nat,
                    index,
                    output,
                ),
                None => session_uses(
                    SessionView { run: invoked_run(session.run, index, key, action), ..session },
                    position as nat,
                    index,
                    key,
                    policy,
                    call_started(policy, action, false),
                ),
            }
        },
    }
}

/// Whether the numbers in a session fit the machine: every step leaves room
/// for the next, and a step in work is one of the run.
pub open spec fn session_fits(session: SessionView) -> bool {
    &&& forall|i: int|
        0 <= i < session.run.steps.len() ==> (#[trigger] session.run.steps[i]).index < usize::MAX
    &&& match session.phase {
        SessionPhaseView::Scanning { .. } => true,
        SessionPhaseView::Opening { position, index, .. } => {
            position < session.run.steps.len() && index < usize::MAX
        },
        SessionPhaseView::Using { position, index, .. } => {
            position < session.run.steps.len() && index < usize::MAX
        },
        SessionPhaseView::Checking { position, index, .. } => {
            position < session.run.steps.len() && index < usize::MAX
        },
        SessionPhaseView::Pausing { position, index, .. } => {
            position < session.run.steps.len() && index < usize::MAX
        },
        SessionPhaseView::Closed => true,
    }
}

// Carrying it out

/// What is known of the next step that is still to do.
pub proof fn lemma_next_pending(steps: Seq<StoredStepView>, from: nat)
    ensures
        match next_pending(steps, from) {
            Some(position) => {
                &&& from <= position < steps.len()
                &&& !steps[position as int].completed
                &&& forall|i: int| from <= i < position ==> (#[trigger] steps[i]).completed
            },
            None => forall|i: int| from <= i < steps.len() ==> (#[trigger] steps[i]).completed,
        },
    decreases steps.len() - from,
{
    if from < steps.len() && steps[from as int].completed {
        lemma_next_pending(steps, from + 1);
    }
}

fn find_pending(steps: &Vec<StoredStep>, from: usize) -> (found: Option<usize>)
    ensures
        match found {
            Some(position) => next_pending(views(steps@), from as nat) == Some(position as nat),
            None => next_pending(views(steps@), from as nat) is None,
        },
{
    let ghost all = views(steps@);
    let mut i: usize = from;
    while i < steps.len()
        invariant
            all == views(steps@),
            next_pending(all, from as nat) == next_pending(all, i as nat),
        decreases steps@.len() - i,
    {
        proof {
            assert(all[i as int] == steps@[i as int]@);
        }
        if !steps[i].completed {
            return Some(i);
        }
        i = i + 1;
    }
    None
}

proof fn lemma_completion_fits(run: RunView, index: nat, output: Seq<char>)
    requires
        forall|i: int|
            0 <= i < run.steps.len() ==> (#[trigger] run.steps[i]).index < usize::MAX,
    ensures
        completed_run(run, index, output) matches Ok(next) ==> next.steps.len() == run.steps.len()
            && forall|i: int|
            0 <= i < next.steps.len() ==> (#[trigger] next.steps[i]).index < usize::MAX,
{
    crate::store::lemma_step_position(run.steps, index);
    match completed_run(run, index, output) {
        Ok(next) => {
            assert forall|i: int| 0 <= i < next.steps.len() implies (#[trigger] next.steps[i]).index
                < usize::MAX by {
                assert(run.steps[i].index < usize::MAX);
            }
        },
        Err(_) => {},
    }
}

fn write_key_payload(key: &str) -> (text: String)
    ensures
        text@ == key_payload(key@),
{
    let mut text = "idempotency_key=".to_owned();
    text.append(key);
    text
}

fn record_deduplicated(record: &mut RunRecord, index: usize, key: &str)
    ensures
        final(record)@ == deduplicated_run(old(record)@, index as nat, key@),
{
    record.record_event("tool.deduplicated", Some(index), write_key_payload(key).as_str());
}

fn record_invoked(record: &mut RunRecord, index: usize, key: &str, action: &ToolAction)
    ensures
        final(record)@ == invoked_run(old(record)@, index as nat, key@, action@),
{
    let mut text = "tool=".to_owned();
    text.append(action.tool().name());
    text.append(" path=");
    text.append(action.path());
    text.append(" ");
    text.append(write_key_payload(key).as_str());
    record.record_event("tool.invoked", Some(index), text.as_str());
}

fn record_resulted(record: &mut RunRecord, index: usize, key: &str, output: &str)
    ensures
        final(record)@ == resulted_run(old(record)@, index as nat, key@, output@),
{
    record.record_result(key, output);
    let mut text = write_key_payload(key);
    text.append(" output_sha256=");
    text.append(hash_text(output).as_str());
    record.record_event("tool.result", Some(index), text.as_str());
}

fn record_stopped(record: &mut RunRecord, index: usize, error: &SandboxError)
    ensures
        final(record)@ == stopped_run(old(record)@, index as nat, error@),
{
    let event_type = if error.is_denied() {
        "sandbox.denied"
    } else {
        "tool.error"
    };
    record.record_event(event_type, Some(index), error.message().as_str());
}

impl Session {
    fn over(self, result: Result<(), ExecutionError>) -> (next: (Session, SessionRequest))
        requires
            session_fits(self@),
        ensures
            (next.0@, next.1@) == session_over(self@, unit_view(result)),
            session_fits(next.0@),
    {
        (
            Session {
                record: self.record,
                pause_ms: self.pause_ms,
                style: self.style,
                phase: SessionPhase::Closed,
            },
            SessionRequest::Done(result),
        )
    }

    fn completes(self, position: usize, index: usize, output: &str) -> (next: (
        Session,
        SessionRequest,
    ))
        requires
            session_fits(self@),
            position < self@.run.steps.len(),
            index < usize::MAX,
        ensures
            (next.0@, next.1@) == session_completes(
                self@,
                position as nat,
                index as nat,
                output@,
            ),
            session_fits(next.0@),
    {
        let mut session = self;
        proof {
            lemma_completion_fits(self@.run, index as nat, output@);
            assert(position < self.record.steps.len());
        }
        match session.record.complete_step(index, output) {
            Err(error) => session.over(Err(ExecutionError::Store(error))),
            Ok(()) => {
                session.phase = SessionPhase::Scanning { position: position + 1 };
                (session, SessionRequest::Proceed)
            },
        }
    }

    fn uses(
        self,
        position: usize,
        index: usize,
        key: String,
        router: ToolRouter,
        next: (ToolCall, ToolProgress),
    ) -> (after: (Session, SessionRequest))
        requires
            session_fits(self@),
            position < self@.run.steps.len(),
            index < usize::MAX,
        ensures
            (after.0@, after.1@) == session_uses(
                self@,
                position as nat,
                index as nat,
                key@,
                router@,
                (next.0@, next.1@),
            ),
            session_fits(after.0@),
    {
        let mut session = self;
        match next.1 {
            ToolProgress::Ask(request) => {
                session.phase = SessionPhase::Using { position, index, key, router, call: next.0 };
                (session, SessionRequest::File(request))
            },
            ToolProgress::Done(Ok(output)) => {
                let output = output.text();
                record_resulted(&mut session.record, index, key.as_str(), output.as_str());
                let pause = session.pause_ms;
                session.phase = SessionPhase::Pausing { position, index, output };
                (session, SessionRequest::Pause(pause))
            },
            ToolProgress::Done(Err(error)) => {
                record_stopped(&mut session.record, index, &error);
                session.over(Err(ExecutionError::Sandbox(error)))
            },
        }
    }

    fn checks(self, position: usize, index: usize, step: GateStep) -> (next: (
        Session,
        SessionRequest,
    ))
        requires
            session_fits(self@),
            position < self@.run.steps.len(),
            index < usize::MAX,
        ensures
            (next.0@, next.1@) == session_checks(self@, position as nat, index as nat, step@),
            session_fits(next.0@),
    {
        let mut session = self;
        match step {
            GateStep::Ask(check, request) => {
                session.phase = SessionPhase::Checking { position, index, check };
                (session, SessionRequest::File(request))
            },
            GateStep::Done(result) => {
                let text = result.message();
                session.record.record_event("gate.evaluated", Some(index), text.as_str());
                if result.passed {
                    session.completes(position, index, result.evidence.as_str())
                } else {
                    session.over(Err(ExecutionError::GateFailed(text)))
                }
            },
        }
    }

    fn opened(
        self,
        position: usize,
        index: usize,
        task: StepTask,
        policy: Result<Policy, SandboxError>,
    ) -> (next: (Session, SessionRequest))
        requires
            session_fits(self@),
            position < self@.run.steps.len(),
            index < usize::MAX,
        ensures
            (next.0@, next.1@) == session_opened(
                self@,
                position as nat,
                index as nat,
                task@,
                res_view(policy),
            ),
            session_fits(next.0@),
    {
        match task.work {
            TaskWork::Check { path, expected } => {
                let step = start_gate(policy, GateQuestion::Contains { path, expected });
                self.checks(position, index, step)
            },
            TaskWork::Use(action) => match policy {
                Err(error) => {
                    let mut session = self;
                    record_stopped(&mut session.record, index, &error);
                    session.over(Err(ExecutionError::Sandbox(error)))
                },
                Ok(policy) => {
                    let router = ToolRouter::new(policy);
                    let next = router.start(action, false);
                    self.uses(position, index, task.key, router, next)
                },
            },
        }
    }

    fn takes(self, position: usize, index: usize, spec: &ToolStepSpec) -> (next: (
        Session,
        SessionRequest,
    ))
        requires
            session_fits(self@),
            position < self@.run.steps.len(),
            index < usize::MAX,
        ensures
            (next.0@, next.1@) == session_takes(self@, position as nat, index as nat, spec@),
            session_fits(next.0@),
    {
        let mut session = self;
        match session.record.recorded_result(spec.idempotency_key.as_str()) {
            Some(output) => {
                record_deduplicated(
                    &mut session.record,
                    index,
                    spec.idempotency_key.as_str(),
                );
                session.completes(position, index, output.as_str())
            },
            None => match StepTask::from_spec(spec) {
                Err(error) => session.over(Err(error)),
                Ok(task) => {
                    if let TaskWork::Use(action) = &task.work {
                        record_invoked(&mut session.record, index, task.key.as_str(), action);
                    }
                    let root = task.root.clone();
                    session.phase = SessionPhase::Opening { position, index, task };
                    (session, SessionRequest::Open(root))
                },
            },
        }
    }

    fn scans(self, from: usize) -> (next: (Session, SessionRequest))
        requires
            session_fits(self@),
        ensures
            (next.0@, next.1@) == session_scans(self@, from as nat),
            session_fits(next.0@),
    {
        proof {
            lemma_next_pending(self@.run.steps, from as nat);
        }
        match find_pending(&self.record.steps, from) {
            None => {
                let mut session = self;
                session.record.finish_run();
                session.over(Ok(()))
            },
            Some(position) => {
                proof {
                    assert(self@.run.steps[position as int] == self.record.steps@[position as int]@);
                }
                let step = self.record.steps[position].clone();
                match &step.spec {
                    None => {
                        let mut output = "completed ".to_owned();
                        output.append(step.id.as_str());
                        self.completes(position, step.index, output.as_str())
                    },
                    Some(spec) => self.takes(position, step.index, spec),
                }
            },
        }
    }

    /// Goes on with the work when it is told what came of the last request.
    pub fn advance(self, reply: SessionReply) -> (next: (Session, SessionRequest))
        requires
            session_fits(self@),
        ensures
            (next.0@, next.1@) == session_next(self@, reply@),
            session_fits(next.0@),
    {
        let mut session = self;
        let mut phase = SessionPhase::Closed;
        std::mem::swap(&mut phase, &mut session.phase);
        match (phase, reply) {
            (SessionPhase::Scanning { position }, SessionReply::Proceed) => {
                session.scans(position)
            },
            (
                SessionPhase::Opening { position, index, task },
                SessionReply::Opened { canonical, is_directory },
            ) => {
                let policy = task.policy(canonical, is_directory, session.style);
                session.opened(position, index, task, policy)
            },
            (
                SessionPhase::Using { position, index, key, router, call },
                SessionReply::File(reply),
            ) => {
                let next = router.resume(call, reply);
                session.uses(position, index, key, router, next)
            },
            (SessionPhase::Checking { position, index, check }, SessionReply::File(reply)) => {
                let step = resume_gate(check, reply);
                session.checks(position, index, step)
            },
            (SessionPhase::Pausing { position, index, output }, SessionReply::Proceed) => {
                session.completes(position, index, output.as_str())
            },
            _ => {
                let error = SandboxError::Io("the host gave an answer of another kind".to_owned());
                session.over(Err(ExecutionError::Sandbox(error)))
            },
        }
    }
}

/// Takes up a run where it stands. The run is to be kept before the session is
/// told to proceed.
pub fn resume_run(record: RunRecord, style: PathStyle) -> (session: Session)
    ensures
        session@ == session_started(record@, 0, style),
{
    resume_run_with_pause(record, 0, style)
}

/// Takes up a run where it stands, with a pause after each recorded result.
pub fn resume_run_with_pause(record: RunRecord, pause_ms: u64, style: PathStyle) -> (session:
    Session)
    ensures
        session@ == session_started(record@, pause_ms as nat, style),
{
    let mut record = record;
    record.mark_running();
    Session { record, pause_ms, style, phase: SessionPhase::Scanning { position: 0 } }
}

/// Takes up a run at one step, with a router and an action given for it.
pub fn execute_tool_step_with_pause(
    record: RunRecord,
    step_index: usize,
    router: ToolRouter,
    action: ToolAction,
    pause_ms: u64,
) -> (next: (Session, SessionRequest))
    requires
        step_index < usize::MAX,
        forall|i: int|
            0 <= i < record@.steps.len() ==> (#[trigger] record@.steps[i]).index < usize::MAX,
    ensures
        (next.0@, next.1@) == tool_session_started(
            record@,
            step_index as nat,
            router@,
            action@,
            pause_ms as nat,
        ),
        session_fits(next.0@),
{
    proof {
        crate::store::lemma_step_position(record@.steps, step_index as nat);
    }
    let key = idempotency_key(record.run_id.as_str(), step_index);
    let found = find_step(&record.steps, step_index);
    let known = record.recorded_result(key.as_str());
    let missing = record.missing_step(step_index);
    let mut session = resume_run_with_pause(record, pause_ms, router.style());
    match found {
        None => session.over(Err(ExecutionError::Store(missing))),
        Some(position) => {
            if session.record.steps[position].completed {
                return (session, SessionRequest::Proceed);
            }
            match known {
                Some(output) => {
                    record_deduplicated(&mut session.record, step_index, key.as_str());
                    session.completes(position, step_index, output.as_str())
                },
                None => {
                    record_invoked(&mut session.record, step_index, key.as_str(), &action);
                    let next = router.start(action, false);
                    session.uses(position, step_index, key, router, next)
                },
            }
        },
    }
}

// Laws

/// What a kept step is taken up as: its tool is found under its name, with its
/// path, what it writes or looks for, and each of its restrictions.
pub proof fn kept_steps_are_taken_up_as_they_were(spec: ToolStepSpecView, task: StepTaskView)
    ensures
        task_of(spec) == Ok::<StepTaskView, ExecutionErrorView>(task) <==> {
            &&& task.key == spec.idempotency_key
            &&& task.root == spec.workspace_root
            &&& task.read_only == spec.read_only
            &&& task.max_write_bytes == spec.max_write_bytes
            &&& match spec.denied_tool {
                None => task.denied is None,
                Some(name) => task.denied is Some && name == tool_name(task.denied->0),
            }
            &&& match task.work {
                TaskWorkView::Check { path, expected } => spec.tool_name == "gate_contains"@
                    && spec.path == path && spec.contents == Some(expected),
                TaskWorkView::Use(ToolActionView::ReadFile(path)) => spec.tool_name
                    == "read_file"@ && spec.path == path,
                TaskWorkView::Use(ToolActionView::WriteFile { path, contents }) => spec.tool_name
                    == "write_file"@ && spec.path == path && spec.contents == Some(contents),
                TaskWorkView::Use(ToolActionView::ListDir(path)) => spec.tool_name == "list_dir"@
                    && spec.path == path,
                TaskWorkView::Use(ToolActionView::RunTests) => spec.tool_name == "run_tests"@,
            }
        },
{
    lemma_work_names();
    tool_name_reads_back(Tool::ReadFile);
    tool_name_reads_back(Tool::WriteFile);
    tool_name_reads_back(Tool::ListDir);
    tool_name_reads_back(Tool::RunTests);
    if let Some(tool) = task.denied {
        tool_name_reads_back(tool);
    }
    if let Some(name) = spec.denied_tool {
        if let Some(tool) = tool_of(name) {
            tool_name_reads_back(tool);
        }
    }
}

proof fn lemma_work_names()
    ensures
        "gate_contains"@ != "read_file"@,
        "gate_contains"@ != "write_file"@,
        "gate_contains"@ != "list_dir"@,
        "gate_contains"@ != "run_tests"@,
        "read_file"@ != "write_file"@,
        "read_file"@ != "list_dir"@,
        "read_file"@ != "run_tests"@,
        "write_file"@ != "list_dir"@,
        "write_file"@ != "run_tests"@,
        "list_dir"@ != "run_tests"@,
{
    reveal_strlit("gate_contains");
    reveal_strlit("read_file");
    reveal_strlit("write_file");
    reveal_strlit("list_dir");
    reveal_strlit("run_tests");
    assert("gate_contains"@[0] == 'g' && "write_file"@[0] == 'w' && "list_dir"@[0] == 'l');
    assert("read_file"@[1] == 'e' && "run_tests"@[1] == 'u' && "read_file"@[0] == 'r');
    assert("run_tests"@[0] == 'r');
}

/// What a step may do: it works in the directory that the host found, with every
/// tool that it does not deny. It writes only if it is not told to read only and
/// is no check, up to its limit.
pub proof fn steps_restrict_their_policy(
    task: StepTaskView,
    canonical: Result<Seq<char>, Seq<char>>,
    is_directory: bool,
    style: PathStyle,
    tool: Tool,
)
    ensures
        task_policy(task, canonical, is_directory, style) is Ok <==> canonical is Ok
            && is_directory,
        task_policy(task, canonical, is_directory, style) matches Ok(policy) ==> {
            let reads = task.read_only || task.work is Check;
            &&& canonical == Ok::<Seq<char>, Seq<char>>(policy.root)
            &&& policy.style == style
            &&& policy.tools.contains(tool) <==> task.denied != Some(tool) && !(reads && tool
                == Tool::WriteFile)
            &&& policy.allow_write <==> !reads
            &&& policy.max_write_bytes == task.max_write_bytes
        },
{
}

/// What is recorded of the use of a tool: that it begins, with its name, path and
/// key; its result, under its key and with its digest; that a result was met
/// again; and what stopped it.
pub proof fn uses_are_recorded(
    run: RunView,
    index: nat,
    key: Seq<char>,
    action: ToolActionView,
    output: Seq<char>,
    error: SandboxErrorView,
)
    ensures
        ({
            let invoked = invoked_run(run, index, key, action);
            &&& one_more_event(
                run.events,
                invoked.events,
                "tool.invoked"@,
                Some(index),
                "tool="@ + tool_name(action_tool(action)) + " path="@ + action_path(action) + " "@
                    + ("idempotency_key="@ + key),
            )
            &&& invoked == (RunView { events: invoked.events, ..run })
        }),
        ({
            let resulted = resulted_run(run, index, key, output);
            &&& one_more_event(
                run.events,
                resulted.events,
                "tool.result"@,
                Some(index),
                "idempotency_key="@ + key + " output_sha256="@ + text_hash(output),
            )
            &&& resulted.results == run.results.push(
                ToolResultView { idempotency_key: key, output },
            )
            &&& resulted == (RunView {
                events: resulted.events,
                results: resulted.results,
                ..run
            })
        }),
        ({
            let met = deduplicated_run(run, index, key);
            &&& one_more_event(
                run.events,
                met.events,
                "tool.deduplicated"@,
                Some(index),
                "idempotency_key="@ + key,
            )
            &&& met == (RunView { events: met.events, ..run })
        }),
        ({
            let stopped = stopped_run(run, index, error);
            &&& one_more_event(
                run.events,
                stopped.events,
                if error is Denied {
                    "sandbox.denied"@
                } else {
                    "tool.error"@
                },
                Some(index),
                sandbox_error_text(error),
            )
            &&& stopped == (RunView { events: stopped.events, ..run })
        }),
{
}

/// What is kept of what a tool gave: a text as it is, names on lines of their
/// own, the number of bytes, or whether the tests passed.
pub proof fn outputs_are_kept_as_texts(
    text: Seq<char>,
    size: nat,
    names: Seq<Seq<char>>,
    passed: bool,
)
    ensures
        output_text(ToolOutputView::Contents(text)) == text,
        output_text(ToolOutputView::Wrote(size)) == "wrote "@ + decimal(size) + " bytes"@,
        output_text(ToolOutputView::Entries(names)) == joined(names, "\n"@),
        output_text(ToolOutputView::Tests(passed)) == if passed {
            "tests passed"@
        } else {
            "tests failed"@
        },
{
}

/// A session that looks for work takes the next step that is to be done, and
/// where there is none the run has succeeded.
pub proof fn sessions_take_the_next_step(session: SessionView, from: nat, position: nat)
    requires
        session.phase == (SessionPhaseView::Scanning { position: from }),
        from <= position <= session.run.steps.len(),
        forall|i: int| from <= i < position ==> (#[trigger] session.run.steps[i]).completed,
        position < session.run.steps.len() ==> !session.run.steps[position as int].completed,
    ensures
        ({
            let (next, request) = session_next(session, SessionReplyView::Proceed);
            let run = session.run;
            let step = run.steps[position as int];
            if position == run.steps.len() {
                &&& request == SessionRequestView::Done(Ok(()))
                &&& next.run == finished_run(run)
            } else {
                match step.spec {
                    None => match completed_run(run, step.index, "completed "@ + step.id) {
                        Ok(after) => {
                            &&& request is Proceed
                            &&& next.run == after
                            &&& next.phase == (SessionPhaseView::Scanning {
                                position: position + 1,
                            })
                        },
                        Err(error) => request == SessionRequestView::Done(
                            Err(ExecutionErrorView::Store(error)),
                        ),
                    },
                    Some(spec) => match result_for(run.results, spec.idempotency_key) {
                        Some(output) => match completed_run(
                            deduplicated_run(run, step.index, spec.idempotency_key),
                            step.index,
                            output,
                        ) {
                            Ok(after) => {
                                &&& request is Proceed
                                &&& next.run == after
                                &&& next.phase == (SessionPhaseView::Scanning {
                                    position: position + 1,
                                })
                            },
                            Err(error) => request == SessionRequestView::Done(
                                Err(ExecutionErrorView::Store(error)),
                            ),
                        },
                        None => match task_of(spec) {
                            Ok(task) => {
                                &&& request == SessionRequestView::Open(spec.workspace_root)
                                &&& next.phase == (SessionPhaseView::Opening {
                                    position,
                                    index: step.index,
                                    task,
                                })
                                &&& task.work is Check ==> next.run == run
                                &&& task.work matches TaskWorkView::Use(action) ==> next.run
                                    == invoked_run(run, step.index, spec.idempotency_key, action)
                            },
                            Err(error) => request == SessionRequestView::Done(Err(error))
                                && next.run == run,
                        },
                    },
                }
            }
        }),
{
    lemma_passed_over(session.run.steps, from, position);
}

proof fn lemma_passed_over(steps: Seq<StoredStepView>, from: nat, position: nat)
    requires
        from <= position <= steps.len(),
        forall|i: int| from <= i < position ==> (#[trigger] steps[i]).completed,
        position < steps.len() ==> !steps[position as int].completed,
    ensures
        next_pending(steps, from) == if position < steps.len() {
            Some(position)
        } else {
            None
        },
    decreases position - from,
{
    if from < position {
        assert(steps[from as int].completed);
        lemma_passed_over(steps, from + 1, position);
    }
}

/// A step whose workspace was found goes to work under its policy, and one whose
/// workspace cannot be used is stopped.
pub proof fn opened_steps_go_to_work(
    session: SessionView,
    position: nat,
    index: nat,
    task: StepTaskView,
    canonical: Result<Seq<char>, Seq<char>>,
    is_directory: bool,
)
    requires
        session.phase == (SessionPhaseView::Opening { position, index, task }),
    ensures
        ({
            let opened = SessionReplyView::Opened { canonical, is_directory };
            let (next, request) = session_next(session, opened);
            let policy = task_policy(task, canonical, is_directory, session.style);
            match task.work {
                TaskWorkView::Use(action) => match policy {
                    Err(error) => {
                        &&& request == SessionRequestView::Done(
                            Err(ExecutionErrorView::Sandbox(error)),
                        )
                        &&& next.run == stopped_run(session.run, index, error)
                    },
                    Ok(policy) => match call_started(policy, action, false) {
                        (call, ToolProgressView::Ask(asked)) => {
                            &&& request == SessionRequestView::File(asked)
                            &&& next.run == session.run
                            &&& next.phase == (SessionPhaseView::Using {
                                position,
                                index,
                                key: task.key,
                                policy,
                                call,
                            })
                        },
                        (_, ToolProgressView::Done(Err(error))) => {
                            &&& request == SessionRequestView::Done(
                                Err(ExecutionErrorView::Sandbox(error)),
                            )
                            &&& next.run == stopped_run(session.run, index, error)
                        },
                        _ => true,
                    },
                },
                TaskWorkView::Check { path, expected } => match gate_started(
                    policy,
                    GateQuestionView::Contains { path, expected },
                ) {
                    GateStepView::Ask(check, asked) => {
                        &&& request == SessionRequestView::File(asked)
                        &&& next.run == session.run
                        &&& next.phase == (SessionPhaseView::Checking { position, index, check })
                    },
                    GateStepView::Done(result) => !result.passed ==> request
                        == SessionRequestView::Done(
                        Err(ExecutionErrorView::GateFailed(gate_text(result))),
                    ),
                },
            }
        }),
{
}

/// What a tool gave is recorded before its step is completed with it, after the
/// pause that was asked for. What stopped it ends the session, and the step stays
/// to be done.
pub proof fn results_are_recorded_before_completion(
    session: SessionView,
    position: nat,
    index: nat,
    key: Seq<char>,
    policy: PolicyView,
    call: ToolCallView,
    reply: FileReplyView,
)
    requires
        session.phase == (SessionPhaseView::Using { position, index, key, policy, call }),
    ensures
        ({
            let (next, request) = session_next(session, SessionReplyView::File(reply));
            match call_resumed(policy, call, reply) {
                (after, ToolProgressView::Ask(asked)) => {
                    &&& request == SessionRequestView::File(asked)
                    &&& next.run == session.run
                    &&& next.phase == (SessionPhaseView::Using {
                        position,
                        index,
                        key,
                        policy,
                        call: after,
                    })
                },
                (_, ToolProgressView::Done(Ok(output))) => {
                    let text = output_text(output);
                    let (last, end) = session_next(next, SessionReplyView::Proceed);
                    &&& request == SessionRequestView::Pause(session.pause_ms)
                    &&& next.run == resulted_run(session.run, index, key, text)
                    &&& match completed_run(next.run, index, text) {
                        Ok(done) => {
                            &&& end is Proceed
                            &&& last.run == done
                            &&& last.phase == (SessionPhaseView::Scanning {
                                position: position + 1,
                            })
                        },
                        Err(error) => end == SessionRequestView::Done(
                            Err(ExecutionErrorView::Store(error)),
                        ),
                    }
                },
                (_, ToolProgressView::Done(Err(error))) => {
                    &&& request == SessionRequestView::Done(
                        Err(ExecutionErrorView::Sandbox(error)),
                    )
                    &&& next.run == stopped_run(session.run, index, error)
                    &&& next.run.steps == session.run.steps
                },
            }
        }),
{
}

/// A gate that fails ends the session with its finding, and its step stays to be
/// done; one that passes completes its step with its evidence. The finding is
/// recorded either way.
pub proof fn failed_gates_end_the_session(
    session: SessionView,
    position: nat,
    index: nat,
    check: GateCheckView,
    reply: FileReplyView,
)
    requires
        session.phase == (SessionPhaseView::Checking { position, index, check }),
    ensures
        ({
            let (next, request) = session_next(session, SessionReplyView::File(reply));
            match gate_resumed(check, reply) {
                GateStepView::Ask(after, asked) => {
                    &&& request == SessionRequestView::File(asked)
                    &&& next.run == session.run
                    &&& next.phase == (SessionPhaseView::Checking {
                        position,
                        index,
                        check: after,
                    })
                },
                GateStepView::Done(result) => if result.passed {
                    let told = with_event(
                        session.run,
                        "gate.evaluated"@,
                        Some(index),
                        gate_text(result),
                    );
                    match completed_run(told, index, result.evidence) {
                        Ok(done) => {
                            &&& request is Proceed
                            &&& next.run == done
                            &&& next.phase == (SessionPhaseView::Scanning {
                                position: position + 1,
                            })
                        },
                        Err(error) => request == SessionRequestView::Done(
                            Err(ExecutionErrorView::Store(error)),
                        ),
                    }
                } else {
                    &&& request == SessionRequestView::Done(
                        Err(ExecutionErrorView::GateFailed(gate_text(result))),
                    )
                    &&& one_more_event(
                        session.run.events,
                        next.run.events,
                        "gate.evaluated"@,
                        Some(index),
                        gate_text(result),
                    )
                    &&& next.run == (RunView { events: next.run.events, ..session.run })
                },
            }
        }),
{
}

/// A session takes up a run from its first step on, and keeps the pause that it
/// is told. One that is to use a tool for a step does so only if the step is
/// there and is not done, and no result of it is recorded.
pub proof fn sessions_begin_with_their_run(
    run: RunView,
    index: nat,
    policy: PolicyView,
    action: ToolActionView,
    pause_ms: nat,
    style: PathStyle,
)
    ensures
        ({
            let session = session_started(run, pause_ms, style);
            &&& session.run == started_run(run)
            &&& session.pause_ms == pause_ms
            &&& session.style == style
            &&& session.phase == (SessionPhaseView::Scanning { position: 0 })
        }),
        ({
            let (session, request) = tool_session_started(run, index, policy, action, pause_ms);
            let key = key_for(run.run_id, index);
            &&& session.pause_ms == pause_ms
            &&& match step_position(run.steps, index) {
                None => request == SessionRequestView::Done(
                    Err(ExecutionErrorView::Store(missing_step(run.run_id, index))),
                ),
                Some(place) => if run.steps[place].completed {
                    request is Proceed && session.run == started_run(run)
                } else if let Some(output) = result_for(run.results, key) {
                    completed_run(deduplicated_run(started_run(run), index, key), index, output)
                        == Ok::<RunView, StoreErrorView>(session.run) && request is Proceed
                } else {
                    match call_started(policy, action, false) {
                        (_, ToolProgressView::Ask(asked)) => {
                            &&& request == SessionRequestView::File(asked)
                            &&& session.run == invoked_run(started_run(run), index, key, action)
                            &&& session.phase is Using
                            &&& session.phase->Using_policy == policy
                            &&& session.phase->Using_key == key
                            &&& session.phase->Using_index == index
                        },
                        (_, ToolProgressView::Done(Err(error))) => {
                            &&& request == SessionRequestView::Done(
                                Err(ExecutionErrorView::Sandbox(error)),
                            )
                            &&& session.run == stopped_run(
                                invoked_run(started_run(run), index, key, action),
                                index,
                                error,
                            )
                        },
                        _ => true,
                    }
                },
            }
        }),
{
    lemma_step_position(run.steps, index);
}

} // verus!
