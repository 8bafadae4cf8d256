//! What repairs come to on a host that does what it is asked.

use crate::agent::{
    edited, fix_next, fix_plan, fix_run, fix_specs, fix_started, fix_works, FixOrderView,
    FixPhaseView, FixStepView, RepoFixPlanView, RepoFixResultView, RepoFixView,
};
use crate::containment::may_write;
use crate::exec::{llm_ended, plain_output, ExecutionErrorView};
use crate::gate::{contains_result, gate_text, GateCheckView, GateQuestionView};
use crate::history::{
    completion_continues, created_run_is_well_formed, event_continues, finishing_continues,
    numbered_steps_can_be_created, result_continues, starting_continues, well_formed,
};
use crate::model::{answered_run, asked_run, request_payload, ModelResponseView};
use crate::path::{is_inside, is_plain_relative, joined_path, PathStyle};
use crate::plan::{plan_from, AgentPlanView, PlanErrorView};
use crate::plan_text::plan_json;
use crate::planner::{
    planner_asks, planner_next, planner_started, planner_tries, planner_works, planning_run,
    repair_run, trial_action, PlanOrderView, PlannedFixView, PlannerPhaseView, PlannerReplyView,
    PlannerStepView, PlannerView, TrialsView,
};
use crate::recovery::{done_before, lemma_unique_position};
use crate::repair::{
    accepted_plans_can_be_carried_out, edits_write_what_is_checked, is_planning_run,
    repairs_can_be_created,
};
use crate::run::{idempotency_keys_are_distinct, key_for, step_sequence, RunStatus};
use crate::sandbox::{
    call_resumed, call_started, output_text, read_only_policy, tool_name_reads_back, tool_of,
    workspace_policy, write_target, FileReplyView, FileRequestView, PolicyView, SandboxErrorView,
    Tool, ToolActionView, ToolCallView, ToolOutputView, ToolProgressView,
};
use crate::session::{
    deduplicated_run, invoked_run, lemma_next_pending, next_pending, resulted_run, session_next,
    session_started, task_of, SessionPhaseView, SessionReplyView, SessionRequestView, SessionView,
    StepTaskView, TaskWorkView,
};
use crate::store::{
    completed_run, created_run, finished_run, pending_step, result_for, started_run, with_event,
    with_result, RunView, StoredStepView, ToolResultView, ToolStepSpecView,
};
use crate::text::{byte_size, has_text, occurrences};
use vstd::prelude::*;

verus! {

/// A host with one workspace and one file of interest in it.
pub struct HostView {
    pub root: Seq<char>,
    pub resolved: Map<Seq<char>, Seq<char>>,
    pub target: Seq<char>,
    pub contents: Seq<char>,
}

/// What the host does when it is asked something, and what it answers.
pub open spec fn host_answers(host: HostView, request: SessionRequestView) -> (
    HostView,
    SessionReplyView,
) {
    match request {
        SessionRequestView::Open(_) => (
            host,
            SessionReplyView::Opened { canonical: Ok(host.root), is_directory: true },
        ),
        SessionRequestView::File(FileRequestView::Canonicalize(path)) => (
            host,
            SessionReplyView::File(
                FileReplyView::Path(
                    if host.resolved.dom().contains(path) {
                        Ok(host.resolved[path])
                    } else {
                        Err("no such path"@)
                    },
                ),
            ),
        ),
        SessionRequestView::File(FileRequestView::CheckLink(_)) => (
            host,
            SessionReplyView::File(FileReplyView::Link(false)),
        ),
        SessionRequestView::File(FileRequestView::ReadText(path)) => (
            host,
            SessionReplyView::File(
                FileReplyView::Text(
                    if path == host.target {
                        Ok(host.contents)
                    } else {
                        Err("no such file"@)
                    },
                ),
            ),
        ),
        SessionRequestView::File(FileRequestView::WriteText { path, contents }) => {
            if path == host.target {
                (
                    HostView { contents, ..host },
                    SessionReplyView::File(FileReplyView::Written(Ok(()))),
                )
            } else {
                (host, SessionReplyView::File(FileReplyView::Written(Err("no such file"@))))
            }
        },
        SessionRequestView::File(FileRequestView::ReadDir(_)) => (
            host,
            SessionReplyView::File(FileReplyView::Entries(Err("no such directory"@))),
        ),
        SessionRequestView::File(FileRequestView::RunTests(_)) => (
            host,
            SessionReplyView::File(FileReplyView::Tests(Err("no tests"@))),
        ),
        _ => (host, SessionReplyView::Proceed),
    }
}

/// Whether a host serves a path: it resolves the path to its file, which lies in
/// the workspace, and the directory of the path to the one that holds the file.
pub open spec fn serves(host: HostView, style: PathStyle, path: Seq<char>) -> bool {
    &&& is_plain_relative(style, path)
    &&& host.resolved.dom().contains(joined_path(style, host.root, path))
    &&& host.resolved[joined_path(style, host.root, path)] == host.target
    &&& is_inside(style, host.target, host.root)
    &&& match write_target(workspace_policy(host.root, style), path) {
        Ok((parent, name)) => {
            &&& host.resolved.dom().contains(parent)
            &&& is_inside(style, host.resolved[parent], host.root)
            &&& joined_path(style, host.resolved[parent], name) == host.target
        },
        Err(_) => false,
    }
}

/// One turn of a session: the host carries out what is asked, and the session
/// is told.
pub open spec fn session_turn(state: (SessionView, SessionRequestView, HostView)) -> (
    SessionView,
    SessionRequestView,
    HostView,
) {
    match state.1 {
        SessionRequestView::Done(_) => state,
        request => {
            let (host, reply) = host_answers(state.2, request);
            let next = session_next(state.0, reply);
            (next.0, next.1, host)
        },
    }
}

/// A number of turns of a session.
pub open spec fn session_turns(
    state: (SessionView, SessionRequestView, HostView),
    count: nat,
) -> (SessionView, SessionRequestView, HostView)
    decreases count,
{
    if count == 0 {
        state
    } else {
        session_turn(session_turns(state, (count - 1) as nat))
    }
}

proof fn lemma_turns_joined(
    state: (SessionView, SessionRequestView, HostView),
    first: nat,
    second: nat,
)
    ensures
        session_turns(session_turns(state, first), second) == session_turns(
            state,
            first + second,
        ),
    decreases second,
{
    if second > 0 {
        lemma_turns_joined(state, first, (second - 1) as nat);
    }
}

/// One turn of a tool call: the host carries out what is asked, and the call is
/// told.
pub open spec fn call_turn(
    policy: PolicyView,
    state: (ToolCallView, ToolProgressView, HostView),
) -> (ToolCallView, ToolProgressView, HostView) {
    match state.1 {
        ToolProgressView::Done(_) => state,
        ToolProgressView::Ask(request) => {
            let (host, reply) = host_answers(state.2, SessionRequestView::File(request));
            match reply {
                SessionReplyView::File(reply) => {
                    let next = call_resumed(policy, state.0, reply);
                    (next.0, next.1, host)
                },
                _ => state,
            }
        },
    }
}

/// A tool call on a host, after a number of turns.
pub open spec fn call_turns(
    policy: PolicyView,
    action: ToolActionView,
    host: HostView,
    count: nat,
) -> (ToolCallView, ToolProgressView, HostView)
    decreases count,
{
    if count == 0 {
        let begun = call_started(policy, action, false);
        (begun.0, begun.1, host)
    } else {
        call_turn(policy, call_turns(policy, action, host, (count - 1) as nat))
    }
}

/// What is written is read back: a write that its policy allows succeeds on a
/// host that serves the path and leaves exactly what was written in the file,
/// whatever the file held before. Reading the path afterwards gives exactly
/// that text, and changes nothing.
pub proof fn writes_are_read_back(
    writer: PolicyView,
    reader: PolicyView,
    host: HostView,
    path: Seq<char>,
    contents: Seq<char>,
)
    requires
        writer.root == host.root,
        writer.tools.contains(Tool::WriteFile),
        may_write(writer, contents),
        serves(host, writer.style, path),
        reader.root == host.root,
        reader.style == writer.style,
        reader.tools.contains(Tool::ReadFile),
    ensures
        ({
            let write = ToolActionView::WriteFile { path, contents };
            let read = ToolActionView::ReadFile(path);
            let written = call_turns(writer, write, host, 3);
            let back = call_turns(reader, read, written.2, 2);
            &&& written.1 == ToolProgressView::Done(
                Ok(ToolOutputView::Wrote(byte_size(contents))),
            )
            &&& written.2 == (HostView { contents, ..host })
            &&& back.1 == ToolProgressView::Done(Ok(ToolOutputView::Contents(contents)))
            &&& back.2 == written.2
        }),
{
    let write = ToolActionView::WriteFile { path, contents };
    let read = ToolActionView::ReadFile(path);
    let (parent, name) = write_target(workspace_policy(host.root, writer.style), path)->Ok_0;
    assert(write_target(writer, path) == Ok::<(Seq<char>, Seq<char>), SandboxErrorView>(
        (parent, name),
    ));
    reveal_with_fuel(call_turns, 4);
    let asked = call_turns(writer, write, host, 0);
    assert(asked.1 == ToolProgressView::Ask(FileRequestView::Canonicalize(parent)));
    let resolved = call_turns(writer, write, host, 1);
    assert(resolved.1 == ToolProgressView::Ask(FileRequestView::CheckLink(host.target)));
    let checked = call_turns(writer, write, host, 2);
    assert(checked.1 == ToolProgressView::Ask(
        FileRequestView::WriteText { path: host.target, contents },
    ));
    let after = call_turns(writer, write, host, 3).2;
    assert(call_turns(reader, read, after, 1).1 == ToolProgressView::Ask(
        FileRequestView::ReadText(host.target),
    ));
}

/// A step with its output.
spec fn with_done(steps: Seq<StoredStepView>, position: nat, output: Seq<char>) -> Seq<
    StoredStepView,
> {
    steps.update(
        position as int,
        StoredStepView {
            completed: true,
            output: Some(output),
            ..steps[position as int]
        },
    )
}

/// Whether a session stands before a step that is to be done.
spec fn stands_before(session: SessionView, position: nat, spec: ToolStepSpecView) -> bool {
    &&& session.phase matches SessionPhaseView::Scanning { position: from } && next_pending(
        session.run.steps,
        from,
    ) == Some(position)
    &&& position < session.run.steps.len()
    &&& !session.run.steps[position as int].completed
    &&& session.run.steps[position as int].spec == Some(spec)
    &&& result_for(session.run.results, spec.idempotency_key) is None
    &&& well_formed(session.run)
}

/// Whether a session is at work on a step: the steps of the run are as they
/// were, the host is as it was until the effect of the step is brought about,
/// and the result of the step is recorded only then.
spec fn under_way(
    run: RunView,
    host: HostView,
    contents: Seq<char>,
    key: Seq<char>,
    state: (SessionView, SessionRequestView, HostView),
) -> bool {
    let now = state.0.run;
    let written = HostView { contents, ..host };
    let answered = host_answers(state.2, state.1).0;
    &&& well_formed(now)
    &&& now.run_id == run.run_id
    &&& now.steps == run.steps
    &&& {
        ||| now.results == run.results && state.2 == host && (answered == host || answered
            == written)
        ||| now.results.len() == run.results.len() + 1 && now.results.drop_last() == run.results
            && now.results.last().idempotency_key == key && state.2 == written && answered
            == written
    }
}

/// What completing a step with a recorded result leaves.
proof fn lemma_tool_completion(
    run: RunView,
    position: nat,
    key: Seq<char>,
    action: ToolActionView,
    output: Seq<char>,
)
    requires
        well_formed(run),
        position < run.steps.len(),
        !run.steps[position as int].completed,
    ensures
        ({
            let index = run.steps[position as int].index;
            let invoked = invoked_run(run, index, key, action);
            let resulted = resulted_run(invoked, index, key, output);
            let next = completed_run(resulted, index, output);
            &&& well_formed(invoked)
            &&& well_formed(resulted)
            &&& next is Ok
            &&& well_formed(next->Ok_0)
            &&& next->Ok_0.run_id == run.run_id
            &&& next->Ok_0.steps == with_done(run.steps, position, output)
            &&& next->Ok_0.results == run.results.push(
                ToolResultView { idempotency_key: key, output },
            )
        }),
{
    let index = run.steps[position as int].index;
    let invoked = invoked_run(run, index, key, action);
    event_continues(run, "tool.invoked"@, Some(index), invoked.events.last().payload);
    result_continues(invoked, key, output);
    let kept = with_result(invoked, key, output);
    let resulted = resulted_run(invoked, index, key, output);
    event_continues(kept, "tool.result"@, Some(index), resulted.events.last().payload);
    lemma_unique_position(resulted, position);
    completion_continues(resulted, index, output);
}

proof fn lemma_first_pending(steps: Seq<StoredStepView>, from: nat, position: nat)
    requires
        from <= position < steps.len(),
        done_before(steps, position),
        !steps[position as int].completed,
    ensures
        next_pending(steps, from) == Some(position),
    decreases position - from,
{
    if from < position {
        assert(steps[from as int].completed);
        lemma_first_pending(steps, from + 1, position);
    }
}

proof fn lemma_tool_names()
    ensures
        tool_of("read_file"@) == Some(Tool::ReadFile),
        tool_of("write_file"@) == Some(Tool::WriteFile),
        "read_file"@ != "gate_contains"@,
        "write_file"@ != "gate_contains"@,
{
    tool_name_reads_back(Tool::ReadFile);
    tool_name_reads_back(Tool::WriteFile);
    reveal_strlit("read_file");
    reveal_strlit("write_file");
    reveal_strlit("gate_contains");
    assert("gate_contains"@.len() == 13);
}

#[verifier::rlimit(50)]
proof fn lemma_read_step(
    session: SessionView,
    host: HostView,
    position: nat,
    spec: ToolStepSpecView,
)
    requires
        stands_before(session, position, spec),
        serves(host, session.style, spec.path),
        spec.tool_name == "read_file"@,
        spec.read_only,
        spec.denied_tool is None,
        spec.max_write_bytes is None,
    ensures
        ({
            let end = session_turns((session, SessionRequestView::Proceed, host), 5);
            &&& end.0.phase == SessionPhaseView::Scanning { position: position + 1 }
            &&& end.1 == SessionRequestView::Proceed
            &&& end.2 == host
            &&& end.0.style == session.style
            &&& end.0.pause_ms == session.pause_ms
            &&& end.0.run.run_id == session.run.run_id
            &&& end.0.run.steps == with_done(session.run.steps, position, host.contents)
            &&& end.0.run.results == session.run.results.push(
                ToolResultView {
                    idempotency_key: spec.idempotency_key,
                    output: host.contents,
                },
            )
            &&& well_formed(end.0.run)
        }),
        forall|j: nat|
            j < 5 ==> under_way(
                session.run,
                host,
                host.contents,
                spec.idempotency_key,
                #[trigger] session_turns((session, SessionRequestView::Proceed, host), j),
            ),
{
    lemma_tool_names();
    let style = session.style;
    let run = session.run;
    let index = run.steps[position as int].index;
    let key = spec.idempotency_key;
    let action = ToolActionView::ReadFile(spec.path);
    let task = StepTaskView {
        key,
        root: spec.workspace_root,
        read_only: true,
        denied: None,
        max_write_bytes: None,
        work: TaskWorkView::Use(action),
    };
    assert(task_of(spec) == Ok::<StepTaskView, ExecutionErrorView>(task));
    let policy = read_only_policy(host.root, style);
    assert(policy.tools.contains(Tool::ReadFile));
    let s0 = (session, SessionRequestView::Proceed, host);
    let invoked = invoked_run(run, index, key, action);
    let s1 = (
        SessionView {
            run: invoked,
            phase: SessionPhaseView::Opening { position, index, task },
            ..session
        },
        SessionRequestView::Open(spec.workspace_root),
        host,
    );
    assert(session_turn(s0) == s1);
    let begun = call_started(policy, action, false);
    let s2 = (
        SessionView {
            run: invoked,
            phase: SessionPhaseView::Using { position, index, key, policy, call: begun.0 },
            ..session
        },
        SessionRequestView::File(
            FileRequestView::Canonicalize(joined_path(style, host.root, spec.path)),
        ),
        host,
    );
    assert(session_turn(s1) == s2);
    let reading = call_resumed(policy, begun.0, FileReplyView::Path(Ok(host.target)));
    let s3 = (
        SessionView {
            run: invoked,
            phase: SessionPhaseView::Using { position, index, key, policy, call: reading.0 },
            ..session
        },
        SessionRequestView::File(FileRequestView::ReadText(host.target)),
        host,
    );
    assert(session_turn(s2) == s3);
    let resulted = resulted_run(invoked, index, key, host.contents);
    let s4 = (
        SessionView {
            run: resulted,
            phase: SessionPhaseView::Pausing { position, index, output: host.contents },
            ..session
        },
        SessionRequestView::Pause(session.pause_ms),
        host,
    );
    assert(session_turn(s3) == s4);
    lemma_tool_completion(run, position, key, action, host.contents);
    assert(session_turns(s0, 0) == s0);
    assert(session_turns(s0, 1) == s1);
    assert(session_turns(s0, 2) == s2);
    assert(session_turns(s0, 3) == s3);
    assert(session_turns(s0, 4) == s4);
    assert(session_turns(s0, 5) == session_turn(s4));
    assert(resulted.results.drop_last() =~= run.results);
    assert forall|j: nat| j < 5 implies under_way(
        run,
        host,
        host.contents,
        key,
        #[trigger] session_turns(s0, j),
    ) by {
        assert(j == 0 || j == 1 || j == 2 || j == 3 || j == 4);
    }
}

#[verifier::rlimit(50)]
proof fn lemma_write_step(
    session: SessionView,
    host: HostView,
    position: nat,
    spec: ToolStepSpecView,
    contents: Seq<char>,
)
    requires
        stands_before(session, position, spec),
        serves(host, session.style, spec.path),
        spec.tool_name == "write_file"@,
        spec.contents == Some(contents),
        !spec.read_only,
        spec.denied_tool is None,
        spec.max_write_bytes is None,
    ensures
        ({
            let end = session_turns((session, SessionRequestView::Proceed, host), 6);
            let output = output_text(ToolOutputView::Wrote(byte_size(contents)));
            &&& end.0.phase == SessionPhaseView::Scanning { position: position + 1 }
            &&& end.1 == SessionRequestView::Proceed
            &&& end.2 == (HostView { contents, ..host })
            &&& end.0.style == session.style
            &&& end.0.pause_ms == session.pause_ms
            &&& end.0.run.run_id == session.run.run_id
            &&& end.0.run.steps == with_done(session.run.steps, position, output)
            &&& end.0.run.results == session.run.results.push(
                ToolResultView { idempotency_key: spec.idempotency_key, output },
            )
            &&& well_formed(end.0.run)
        }),
        forall|j: nat|
            j < 6 ==> under_way(
                session.run,
                host,
                contents,
                spec.idempotency_key,
                #[trigger] session_turns((session, SessionRequestView::Proceed, host), j),
            ),
{
    lemma_tool_names();
    let style = session.style;
    let run = session.run;
    let index = run.steps[position as int].index;
    let key = spec.idempotency_key;
    let action = ToolActionView::WriteFile { path: spec.path, contents };
    let output = output_text(ToolOutputView::Wrote(byte_size(contents)));
    let task = StepTaskView {
        key,
        root: spec.workspace_root,
        read_only: false,
        denied: None,
        max_write_bytes: None,
        work: TaskWorkView::Use(action),
    };
    assert(task_of(spec) == Ok::<StepTaskView, ExecutionErrorView>(task));
    let policy = workspace_policy(host.root, style);
    assert(policy.tools.contains(Tool::WriteFile));
    let parent = write_target(policy, spec.path)->Ok_0.0;
    let directory = host.resolved[parent];
    let s0 = (session, SessionRequestView::Proceed, host);
    let invoked = invoked_run(run, index, key, action);
    let s1 = (
        SessionView {
            run: invoked,
            phase: SessionPhaseView::Opening { position, index, task },
            ..session
        },
        SessionRequestView::Open(spec.workspace_root),
        host,
    );
    assert(session_turn(s0) == s1);
    let begun = call_started(policy, action, false);
    let s2 = (
        SessionView {
            run: invoked,
            phase: SessionPhaseView::Using { position, index, key, policy, call: begun.0 },
            ..session
        },
        SessionRequestView::File(FileRequestView::Canonicalize(parent)),
        host,
    );
    assert(session_turn(s1) == s2);
    let checking = call_resumed(policy, begun.0, FileReplyView::Path(Ok(directory)));
    let s3 = (
        SessionView {
            run: invoked,
            phase: SessionPhaseView::Using { position, index, key, policy, call: checking.0 },
            ..session
        },
        SessionRequestView::File(FileRequestView::CheckLink(host.target)),
        host,
    );
    assert(session_turn(s2) == s3);
    let writing = call_resumed(policy, checking.0, FileReplyView::Link(false));
    let s4 = (
        SessionView {
            run: invoked,
            phase: SessionPhaseView::Using { position, index, key, policy, call: writing.0 },
            ..session
        },
        SessionRequestView::File(FileRequestView::WriteText { path: host.target, contents }),
        host,
    );
    assert(session_turn(s3) == s4);
    let written = HostView { contents, ..host };
    let resulted = resulted_run(invoked, index, key, output);
    let s5 = (
        SessionView {
            run: resulted,
            phase: SessionPhaseView::Pausing { position, index, output },
            ..session
        },
        SessionRequestView::Pause(session.pause_ms),
        written,
    );
    assert(session_turn(s4) == s5);
    lemma_tool_completion(run, position, key, action, output);
    assert(session_turns(s0, 0) == s0);
    assert(session_turns(s0, 1) == s1);
    assert(session_turns(s0, 2) == s2);
    assert(session_turns(s0, 3) == s3);
    assert(session_turns(s0, 4) == s4);
    assert(session_turns(s0, 5) == s5);
    assert(session_turns(s0, 6) == session_turn(s5));
    assert(resulted.results.drop_last() =~= run.results);
    assert forall|j: nat| j < 6 implies under_way(
        run,
        host,
        contents,
        key,
        #[trigger] session_turns(s0, j),
    ) by {
        assert(j == 0 || j == 1 || j == 2 || j == 3 || j == 4 || j == 5);
    }
}

#[verifier::rlimit(50)]
proof fn lemma_gate_step(
    session: SessionView,
    host: HostView,
    position: nat,
    spec: ToolStepSpecView,
    expected: Seq<char>,
)
    requires
        stands_before(session, position, spec),
        serves(host, session.style, spec.path),
        spec.tool_name == "gate_contains"@,
        spec.contents == Some(expected),
        spec.denied_tool is None,
        spec.max_write_bytes is None,
        has_text(host.contents, expected),
    ensures
        ({
            let end = session_turns((session, SessionRequestView::Proceed, host), 4);
            &&& end.0.phase == SessionPhaseView::Scanning { position: position + 1 }
            &&& end.1 == SessionRequestView::Proceed
            &&& end.2 == host
            &&& end.0.run.run_id == session.run.run_id
            &&& end.0.style == session.style
            &&& end.0.run.steps == with_done(
                session.run.steps,
                position,
                contains_result(
                    spec.path,
                    expected,
                    Ok(ToolOutputView::Contents(host.contents)),
                ).evidence,
            )
            &&& end.0.run.results == session.run.results
            &&& well_formed(end.0.run)
        }),
        forall|j: nat|
            j < 4 ==> under_way(
                session.run,
                host,
                host.contents,
                spec.idempotency_key,
                #[trigger] session_turns((session, SessionRequestView::Proceed, host), j),
            ),
{
    let style = session.style;
    let run = session.run;
    let index = run.steps[position as int].index;
    let question = GateQuestionView::Contains { path: spec.path, expected };
    let action = ToolActionView::ReadFile(spec.path);
    let task = StepTaskView {
        key: spec.idempotency_key,
        root: spec.workspace_root,
        read_only: spec.read_only,
        denied: None,
        max_write_bytes: None,
        work: TaskWorkView::Check { path: spec.path, expected },
    };
    assert(task_of(spec) == Ok::<StepTaskView, ExecutionErrorView>(task));
    let policy = read_only_policy(host.root, style);
    assert(policy.tools.contains(Tool::ReadFile));
    let s0 = (session, SessionRequestView::Proceed, host);
    let s1 = (
        SessionView {
            phase: SessionPhaseView::Opening { position, index, task },
            ..session
        },
        SessionRequestView::Open(spec.workspace_root),
        host,
    );
    assert(session_turn(s0) == s1);
    let begun = call_started(policy, action, false);
    let s2 = (
        SessionView {
            phase: SessionPhaseView::Checking {
                position,
                index,
                check: GateCheckView { policy, question, call: begun.0 },
            },
            ..session
        },
        SessionRequestView::File(
            FileRequestView::Canonicalize(joined_path(style, host.root, spec.path)),
        ),
        host,
    );
    assert(session_turn(s1) == s2);
    let reading = call_resumed(policy, begun.0, FileReplyView::Path(Ok(host.target)));
    let s3 = (
        SessionView {
            phase: SessionPhaseView::Checking {
                position,
                index,
                check: GateCheckView { policy, question, call: reading.0 },
            },
            ..session
        },
        SessionRequestView::File(FileRequestView::ReadText(host.target)),
        host,
    );
    assert(session_turn(s2) == s3);
    let result = contains_result(
        spec.path,
        expected,
        Ok(ToolOutputView::Contents(host.contents)),
    );
    assert(result.passed);
    let judged = with_event(run, "gate.evaluated"@, Some(index), gate_text(result));
    event_continues(run, "gate.evaluated"@, Some(index), gate_text(result));
    lemma_unique_position(judged, position);
    completion_continues(judged, index, result.evidence);
    assert(session_turns(s0, 0) == s0);
    assert(session_turns(s0, 1) == s1);
    assert(session_turns(s0, 2) == s2);
    assert(session_turns(s0, 3) == s3);
    assert(session_turns(s0, 4) == session_turn(s3));
    assert forall|j: nat| j < 4 implies under_way(
        run,
        host,
        host.contents,
        spec.idempotency_key,
        #[trigger] session_turns(s0, j),
    ) by {
        assert(j == 0 || j == 1 || j == 2 || j == 3);
    }
}

proof fn lemma_other_result(
    results: Seq<ToolResultView>,
    result: ToolResultView,
    key: Seq<char>,
)
    requires
        result_for(results, key) is None,
        result.idempotency_key != key,
    ensures
        result_for(results.push(result), key) is None,
{
    assert(results.push(result).drop_last() =~= results);
}

#[verifier::rlimit(50)]
proof fn lemma_recorded_step(
    session: SessionView,
    host: HostView,
    position: nat,
    spec: ToolStepSpecView,
)
    requires
        session.phase matches SessionPhaseView::Scanning { position: from } && next_pending(
            session.run.steps,
            from,
        ) == Some(position),
        position < session.run.steps.len(),
        !session.run.steps[position as int].completed,
        session.run.steps[position as int].spec == Some(spec),
        result_for(session.run.results, spec.idempotency_key) is Some,
        well_formed(session.run),
    ensures
        ({
            let end = session_turns((session, SessionRequestView::Proceed, host), 1);
            &&& end.0.phase == SessionPhaseView::Scanning { position: position + 1 }
            &&& end.1 == SessionRequestView::Proceed
            &&& end.2 == host
            &&& end.0.style == session.style
            &&& end.0.run.run_id == session.run.run_id
            &&& end.0.run.steps == with_done(
                session.run.steps,
                position,
                result_for(session.run.results, spec.idempotency_key)->0,
            )
            &&& end.0.run.results == session.run.results
            &&& well_formed(end.0.run)
        }),
{
    let run = session.run;
    let index = run.steps[position as int].index;
    let key = spec.idempotency_key;
    let met = deduplicated_run(run, index, key);
    event_continues(run, "tool.deduplicated"@, Some(index), met.events.last().payload);
    lemma_unique_position(met, position);
    completion_continues(met, index, result_for(run.results, key)->0);
    reveal_with_fuel(session_turns, 2);
}

// The stages of a repair

/// What a repair is to come to: where its four steps begin in the run, its
/// file, the new contents, and the text that is checked.
pub struct AimView {
    pub first: nat,
    pub path: Seq<char>,
    pub contents: Seq<char>,
    pub expected: Seq<char>,
}

/// The stored steps of a repair.
pub open spec fn aim_specs(run: RunView, host: HostView, aim: AimView) -> Seq<ToolStepSpecView> {
    fix_specs(run.run_id, aim.first, host.root, aim.path, aim.contents, aim.expected)
}

/// Whether the result of the step of a stage is recorded.
pub open spec fn recorded_at(run: RunView, host: HostView, aim: AimView, stage: nat) -> bool {
    stage < 4 && result_for(
        run.results,
        aim_specs(run, host, aim)[stage as int].idempotency_key,
    ) is Some
}

/// Whether a run has done so many of the four steps of a repair and has the
/// others to do. The result of the next step may be recorded already. Once the
/// file was written, it has the new contents.
pub open spec fn resumable_at(run: RunView, host: HostView, aim: AimView, stage: nat) -> bool {
    let specs = aim_specs(run, host, aim);
    &&& well_formed(run)
    &&& stage <= 4
    &&& run.steps.len() == aim.first + 4
    &&& done_before(run.steps, aim.first + stage)
    &&& forall|i: nat|
        stage <= i < 4 ==> {
            &&& !run.steps[(aim.first + i) as int].completed
            &&& run.steps[(aim.first + i) as int].spec == Some(#[trigger] specs[i as int])
            &&& stage < i ==> result_for(run.results, specs[i as int].idempotency_key) is None
        }
    &&& (stage >= 2 || (stage == 1 && recorded_at(run, host, aim, 1))) ==> host.contents
        == aim.contents
}

/// Whether a repair can be taken up from a run on a host.
pub open spec fn resumable(run: RunView, host: HostView, aim: AimView) -> bool {
    exists|stage: nat| #[trigger] resumable_at(run, host, aim, stage)
}

/// Whether a repair can be taken up wherever a session is interrupted: before
/// the host carries out what is asked, or after it did and before the session
/// is told.
pub open spec fn interruptible(
    state: (SessionView, SessionRequestView, HostView),
    aim: AimView,
) -> bool {
    &&& resumable(state.0.run, state.2, aim)
    &&& resumable(state.0.run, host_answers(state.2, state.1).0, aim)
}

/// Whether a session stands before what is left of a repair, on a host that
/// serves its path.
pub open spec fn stands_at(session: SessionView, host: HostView, aim: AimView, stage: nat) -> bool {
    &&& resumable_at(session.run, host, aim, stage)
    &&& session.phase matches SessionPhaseView::Scanning { position } && position <= aim.first
        + stage
    &&& serves(host, session.style, aim.path)
    &&& has_text(aim.contents, aim.expected)
}

/// How many turns the step of a stage takes.
pub open spec fn step_turns(stage: nat, recorded: bool) -> nat {
    if recorded {
        1
    } else if stage == 1 {
        6
    } else if stage == 3 {
        4
    } else {
        5
    }
}

/// How many turns are left from a stage on.
pub open spec fn turns_left(stage: nat, recorded: bool) -> nat
    decreases 4 - stage,
{
    if stage >= 4 {
        1
    } else {
        step_turns(stage, recorded) + turns_left(stage + 1, false)
    }
}

/// Whether a repair came to a good end: the session is over, the file has the
/// new contents, every step is completed, and the run succeeded.
pub open spec fn repaired(
    state: (SessionView, SessionRequestView, HostView),
    aim: AimView,
) -> bool {
    &&& state.1 == SessionRequestView::Done(Ok(()))
    &&& state.2.contents == aim.contents
    &&& state.0.run.status == RunStatus::Succeeded
    &&& done_before(state.0.run.steps, state.0.run.steps.len())
}

proof fn lemma_spec_keys(run: RunView, host: HostView, aim: AimView, i: nat)
    requires
        i < 4,
    ensures
        aim_specs(run, host, aim).len() == 4,
        aim_specs(run, host, aim)[i as int].idempotency_key == key_for(run.run_id, aim.first + i),
        aim_specs(run, host, aim)[i as int].path == aim.path,
        aim_specs(run, host, aim)[i as int].denied_tool is None,
        aim_specs(run, host, aim)[i as int].max_write_bytes is None,
{
    assert(i == 0 || i == 1 || i == 2 || i == 3);
}

proof fn lemma_keys_differ(run: RunView, host: HostView, aim: AimView, i: nat, j: nat)
    requires
        i < j < 4,
    ensures
        aim_specs(run, host, aim)[i as int].idempotency_key != aim_specs(
            run,
            host,
            aim,
        )[j as int].idempotency_key,
{
    lemma_spec_keys(run, host, aim, i);
    lemma_spec_keys(run, host, aim, j);
    if key_for(run.run_id, aim.first + i) == key_for(run.run_id, aim.first + j) {
        idempotency_keys_are_distinct(run.run_id, aim.first + i, run.run_id, aim.first + j);
    }
}

/// Where the next step of a repair stands.
proof fn lemma_at_step(session: SessionView, host: HostView, aim: AimView, stage: nat)
    requires
        stands_at(session, host, aim, stage),
        stage < 4,
    ensures
        ({
            let spec = aim_specs(session.run, host, aim)[stage as int];
            let position = aim.first + stage;
            &&& next_pending(session.run.steps, session.phase->Scanning_position) == Some(position)
            &&& !session.run.steps[position as int].completed
            &&& session.run.steps[position as int].spec == Some(spec)
            &&& !recorded_at(session.run, host, aim, stage) ==> stands_before(
                session,
                position,
                spec,
            )
        }),
{
    let specs = aim_specs(session.run, host, aim);
    assert(session.run.steps[(aim.first + stage) as int].spec == Some(specs[stage as int]));
    lemma_first_pending(
        session.run.steps,
        session.phase->Scanning_position,
        aim.first + stage,
    );
}

/// While the step of a stage is in work, the repair can be taken up.
#[verifier::rlimit(50)]
proof fn lemma_interruptible(
    run: RunView,
    host: HostView,
    aim: AimView,
    stage: nat,
    contents: Seq<char>,
    state: (SessionView, SessionRequestView, HostView),
)
    requires
        resumable_at(run, host, aim, stage),
        stage < 4,
        !recorded_at(run, host, aim, stage),
        contents == if stage == 1 {
            aim.contents
        } else {
            host.contents
        },
        under_way(
            run,
            host,
            contents,
            aim_specs(run, host, aim)[stage as int].idempotency_key,
            state,
        ),
    ensures
        interruptible(state, aim),
{
    let specs = aim_specs(run, host, aim);
    let now = state.0.run;
    let answered = host_answers(state.2, state.1).0;
    assert(aim_specs(now, state.2, aim) == specs);
    assert(aim_specs(now, answered, aim) == specs);
    assert forall|i: nat| stage <= i < 4 implies {
        &&& !now.steps[(aim.first + i) as int].completed
        &&& now.steps[(aim.first + i) as int].spec == Some(#[trigger] specs[i as int])
        &&& stage < i ==> result_for(now.results, specs[i as int].idempotency_key) is None
    } by {
        assert(run.steps[(aim.first + i) as int].spec == Some(specs[i as int]));
        if stage < i && now.results != run.results {
            lemma_keys_differ(run, host, aim, stage, i);
        }
    }
    assert(resumable_at(now, state.2, aim, stage));
    assert(resumable_at(now, answered, aim, stage));
}

/// What the step of a stage leaves.
proof fn lemma_next_stage(
    before: SessionView,
    host: HostView,
    after: SessionView,
    served: HostView,
    aim: AimView,
    stage: nat,
    output: Seq<char>,
)
    requires
        stands_at(before, host, aim, stage),
        stage < 4,
        well_formed(after.run),
        after.style == before.style,
        after.run.run_id == before.run.run_id,
        after.phase == (SessionPhaseView::Scanning { position: aim.first + stage + 1 }),
        after.run.steps == with_done(before.run.steps, aim.first + stage, output),
        after.run.results == before.run.results || after.run.results
            == before.run.results.push(
            ToolResultView {
                idempotency_key: aim_specs(before.run, host, aim)[stage as int].idempotency_key,
                output,
            },
        ),
        served == (HostView { contents: served.contents, ..host }),
        stage >= 1 ==> served.contents == aim.contents,
    ensures
        stands_at(after, served, aim, stage + 1),
        !recorded_at(after.run, served, aim, stage + 1),
{
    let specs = aim_specs(before.run, host, aim);
    assert(aim_specs(after.run, served, aim) == specs);
    assert forall|i: nat| stage + 1 <= i < 4 implies {
        &&& !after.run.steps[(aim.first + i) as int].completed
        &&& after.run.steps[(aim.first + i) as int].spec == Some(#[trigger] specs[i as int])
        &&& result_for(after.run.results, specs[i as int].idempotency_key) is None
    } by {
        assert(before.run.steps[(aim.first + i) as int].spec == Some(specs[i as int]));
        if after.run.results != before.run.results {
            lemma_keys_differ(before.run, host, aim, stage, i);
            lemma_other_result(
                before.run.results,
                ToolResultView { idempotency_key: specs[stage as int].idempotency_key, output },
                specs[i as int].idempotency_key,
            );
        }
    }
    assert forall|i: int| 0 <= i < aim.first + stage + 1 && i < after.run.steps.len() implies (
    #[trigger] after.run.steps[i]).completed by {
        if i < aim.first + stage {
            assert(before.run.steps[i].completed);
        }
    }
}

/// The step of a stage is done, and can be interrupted anywhere.
#[verifier::rlimit(50)]
proof fn lemma_stage(session: SessionView, host: HostView, aim: AimView, stage: nat)
    requires
        stands_at(session, host, aim, stage),
        stage < 4,
    ensures
        ({
            let start = (session, SessionRequestView::Proceed, host);
            let recorded = recorded_at(session.run, host, aim, stage);
            let end = session_turns(start, step_turns(stage, recorded));
            &&& stands_at(end.0, end.2, aim, stage + 1)
            &&& !recorded_at(end.0.run, end.2, aim, stage + 1)
            &&& end.1 == SessionRequestView::Proceed
            &&& forall|j: nat|
                j < step_turns(stage, recorded) ==> interruptible(
                    #[trigger] session_turns(start, j),
                    aim,
                )
        }),
{
    let start = (session, SessionRequestView::Proceed, host);
    let spec = aim_specs(session.run, host, aim)[stage as int];
    let position = aim.first + stage;
    lemma_at_step(session, host, aim, stage);
    lemma_spec_keys(session.run, host, aim, stage);
    if recorded_at(session.run, host, aim, stage) {
        lemma_recorded_step(session, host, position, spec);
        let end = session_turns(start, 1);
        let output = result_for(session.run.results, spec.idempotency_key)->0;
        lemma_next_stage(session, host, end.0, end.2, aim, stage, output);
        assert forall|j: nat| j < 1 implies interruptible(#[trigger] session_turns(start, j), aim) by {
            assert(resumable_at(session.run, host, aim, stage));
        }
    } else if stage == 1 {
        lemma_write_step(session, host, position, spec, aim.contents);
        let end = session_turns(start, 6);
        let output = output_text(ToolOutputView::Wrote(byte_size(aim.contents)));
        lemma_next_stage(session, host, end.0, end.2, aim, stage, output);
        assert forall|j: nat| j < 6 implies interruptible(#[trigger] session_turns(start, j), aim) by {
            lemma_interruptible(
                session.run,
                host,
                aim,
                stage,
                aim.contents,
                session_turns(start, j),
            );
        }
    } else if stage == 3 {
        lemma_gate_step(session, host, position, spec, aim.expected);
        let end = session_turns(start, 4);
        let output = contains_result(
            spec.path,
            aim.expected,
            Ok(ToolOutputView::Contents(host.contents)),
        ).evidence;
        lemma_next_stage(session, host, end.0, end.2, aim, stage, output);
        assert forall|j: nat| j < 4 implies interruptible(#[trigger] session_turns(start, j), aim) by {
            lemma_interruptible(
                session.run,
                host,
                aim,
                stage,
                host.contents,
                session_turns(start, j),
            );
        }
    } else {
        lemma_read_step(session, host, position, spec);
        let end = session_turns(start, 5);
        lemma_next_stage(session, host, end.0, end.2, aim, stage, host.contents);
        assert forall|j: nat| j < 5 implies interruptible(#[trigger] session_turns(start, j), aim) by {
            lemma_interruptible(
                session.run,
                host,
                aim,
                stage,
                host.contents,
                session_turns(start, j),
            );
        }
    }
}

/// A session with nothing left to do ends well.
proof fn lemma_last_turn(session: SessionView, host: HostView, from: nat)
    requires
        session.phase == (SessionPhaseView::Scanning { position: from }),
        done_before(session.run.steps, session.run.steps.len()),
    ensures
        ({
            let end = session_turns((session, SessionRequestView::Proceed, host), 1);
            &&& end.1 == SessionRequestView::Done(Ok(()))
            &&& end.2 == host
            &&& end.0.run == finished_run(session.run)
        }),
{
    lemma_next_pending(session.run.steps, from);
    assert(next_pending(session.run.steps, from) is None) by {
        if next_pending(session.run.steps, from) is Some {
            let position = next_pending(session.run.steps, from)->0;
            assert(session.run.steps[position as int].completed);
        }
    }
    reveal_with_fuel(session_turns, 2);
}

/// A session that is over stays as it is.
proof fn lemma_over(state: (SessionView, SessionRequestView, HostView), count: nat)
    requires
        state.1 is Done,
    ensures
        session_turns(state, count) == state,
    decreases count,
{
    if count > 0 {
        lemma_over(state, (count - 1) as nat);
    }
}

/// A session that stands before what is left of a repair, at any of its stages,
/// brings it to a good end on a host that serves its path.
pub proof fn repair_sessions_succeed(
    session: SessionView,
    host: HostView,
    aim: AimView,
    stage: nat,
)
    requires
        stands_at(session, host, aim, stage),
    ensures
        repaired(
            session_turns(
                (session, SessionRequestView::Proceed, host),
                turns_left(stage, recorded_at(session.run, host, aim, stage)),
            ),
            aim,
        ),
    decreases 4 - stage,
{
    let start = (session, SessionRequestView::Proceed, host);
    if stage < 4 {
        let turns = step_turns(stage, recorded_at(session.run, host, aim, stage));
        lemma_stage(session, host, aim, stage);
        let next = session_turns(start, turns);
        repair_sessions_succeed(next.0, next.2, aim, stage + 1);
        lemma_turns_joined(start, turns, turns_left(stage + 1, false));
    } else {
        lemma_last_turn(session, host, session.phase->Scanning_position);
    }
}

/// Wherever a session on a repair is interrupted, the repair can be taken up.
#[verifier::rlimit(50)]
pub proof fn repair_sessions_can_be_interrupted(
    session: SessionView,
    host: HostView,
    aim: AimView,
    stage: nat,
    count: nat,
)
    requires
        stands_at(session, host, aim, stage),
    ensures
        interruptible(session_turns((session, SessionRequestView::Proceed, host), count), aim),
    decreases 4 - stage,
{
    let start = (session, SessionRequestView::Proceed, host);
    if stage < 4 {
        let turns = step_turns(stage, recorded_at(session.run, host, aim, stage));
        lemma_stage(session, host, aim, stage);
        if count >= turns {
            let next = session_turns(start, turns);
            let rest = (count - turns) as nat;
            repair_sessions_can_be_interrupted(next.0, next.2, aim, stage + 1, rest);
            lemma_turns_joined(start, turns, rest);
        }
    } else if count == 0 {
        assert(resumable_at(session.run, host, aim, 4));
    } else {
        lemma_last_turn(session, host, session.phase->Scanning_position);
        let end = session_turns(start, 1);
        lemma_turns_joined(start, 1, (count - 1) as nat);
        lemma_over(end, (count - 1) as nat);
        finishing_continues(session.run);
        assert(resumable_at(end.0.run, host, aim, 4));
    }
}

/// A session that takes up a run of a repair stands before what is left of it.
proof fn lemma_taken_up(
    run: RunView,
    host: HostView,
    aim: AimView,
    stage: nat,
    pause_ms: nat,
    style: PathStyle,
)
    requires
        resumable_at(run, host, aim, stage),
        serves(host, style, aim.path),
        has_text(aim.contents, aim.expected),
    ensures
        stands_at(session_started(run, pause_ms, style), host, aim, stage),
        recorded_at(session_started(run, pause_ms, style).run, host, aim, stage) == recorded_at(
            run,
            host,
            aim,
            stage,
        ),
{
    starting_continues(run);
    let started = started_run(run);
    let specs = aim_specs(run, host, aim);
    assert(aim_specs(started, host, aim) == specs);
    assert forall|i: nat| stage <= i < 4 implies {
        &&& !started.steps[(aim.first + i) as int].completed
        &&& started.steps[(aim.first + i) as int].spec == Some(#[trigger] specs[i as int])
        &&& stage < i ==> result_for(started.results, specs[i as int].idempotency_key) is None
    } by {
        assert(run.steps[(aim.first + i) as int].spec == Some(specs[i as int]));
    }
}

/// A repair that was interrupted at any of its stages, before or after the
/// result of the step in work was recorded, comes to a good end when it is
/// taken up again on a host that serves its path.
pub proof fn resumed_repairs_succeed(
    run: RunView,
    host: HostView,
    aim: AimView,
    stage: nat,
    pause_ms: nat,
    style: PathStyle,
)
    requires
        resumable_at(run, host, aim, stage),
        serves(host, style, aim.path),
        has_text(aim.contents, aim.expected),
    ensures
        repaired(
            session_turns(
                (session_started(run, pause_ms, style), SessionRequestView::Proceed, host),
                turns_left(stage, recorded_at(run, host, aim, stage)),
            ),
            aim,
        ),
{
    lemma_taken_up(run, host, aim, stage, pause_ms, style);
    repair_sessions_succeed(session_started(run, pause_ms, style), host, aim, stage);
}

/// A run and its host after the run was taken up and killed a number of times.
/// Each kill comes after a number of turns, and either before the host carries
/// out what is asked or after it did and before the session is told.
pub open spec fn after_kills(
    run: RunView,
    host: HostView,
    pause_ms: nat,
    style: PathStyle,
    kills: Seq<(nat, bool)>,
) -> (RunView, HostView)
    decreases kills.len(),
{
    if kills.len() == 0 {
        (run, host)
    } else {
        let (kept, left) = after_kills(run, host, pause_ms, style, kills.drop_last());
        let state = session_turns(
            (session_started(kept, pause_ms, style), SessionRequestView::Proceed, left),
            kills.last().0,
        );
        (
            state.0.run,
            if kills.last().1 {
                host_answers(state.2, state.1).0
            } else {
                state.2
            },
        )
    }
}

proof fn lemma_killed(
    run: RunView,
    host: HostView,
    aim: AimView,
    pause_ms: nat,
    style: PathStyle,
    kills: Seq<(nat, bool)>,
)
    requires
        resumable(run, host, aim),
        serves(host, style, aim.path),
        has_text(aim.contents, aim.expected),
    ensures
        ({
            let (kept, left) = after_kills(run, host, pause_ms, style, kills);
            resumable(kept, left, aim) && serves(left, style, aim.path)
        }),
    decreases kills.len(),
{
    if kills.len() > 0 {
        lemma_killed(run, host, aim, pause_ms, style, kills.drop_last());
        let (kept, left) = after_kills(run, host, pause_ms, style, kills.drop_last());
        let stage = choose|stage: nat| #[trigger] resumable_at(kept, left, aim, stage);
        lemma_taken_up(kept, left, aim, stage, pause_ms, style);
        let session = session_started(kept, pause_ms, style);
        repair_sessions_can_be_interrupted(session, left, aim, stage, kills.last().0);
        lemma_same_host((session, SessionRequestView::Proceed, left), kills.last().0);
    }
}

/// Only the contents of the file change on a host.
proof fn lemma_same_host(state: (SessionView, SessionRequestView, HostView), count: nat)
    ensures
        ({
            let end = session_turns(state, count);
            let answered = host_answers(end.2, end.1).0;
            &&& end.2 == (HostView { contents: end.2.contents, ..state.2 })
            &&& answered == (HostView { contents: answered.contents, ..state.2 })
        }),
    decreases count,
{
    if count > 0 {
        lemma_same_host(state, (count - 1) as nat);
    }
}

/// However often a repair is killed, and wherever, it comes to a good end when
/// it is taken up once more and left alone, on a host that serves its path.
pub proof fn killed_repairs_succeed(
    run: RunView,
    host: HostView,
    aim: AimView,
    pause_ms: nat,
    style: PathStyle,
    kills: Seq<(nat, bool)>,
)
    requires
        resumable(run, host, aim),
        serves(host, style, aim.path),
        has_text(aim.contents, aim.expected),
    ensures
        ({
            let (kept, left) = after_kills(run, host, pause_ms, style, kills);
            let session = session_started(kept, pause_ms, style);
            exists|count: nat|
                repaired(
                    #[trigger] session_turns(
                        (session, SessionRequestView::Proceed, left),
                        count,
                    ),
                    aim,
                )
        }),
{
    lemma_killed(run, host, aim, pause_ms, style, kills);
    let (kept, left) = after_kills(run, host, pause_ms, style, kills);
    let stage = choose|stage: nat| #[trigger] resumable_at(kept, left, aim, stage);
    resumed_repairs_succeed(kept, left, aim, stage, pause_ms, style);
    let session = session_started(kept, pause_ms, style);
    let count = turns_left(stage, recorded_at(kept, left, aim, stage));
    assert(repaired(
        session_turns((session, SessionRequestView::Proceed, left), count),
        aim,
    ));
}

// Runs of plain steps

/// How many steps are still to do from a position on.
pub open spec fn pending_count(steps: Seq<StoredStepView>, from: nat) -> nat
    decreases steps.len() - from,
{
    if from >= steps.len() {
        0
    } else if steps[from as int].completed {
        pending_count(steps, from + 1)
    } else {
        1 + pending_count(steps, from + 1)
    }
}

proof fn lemma_pending_count(steps: Seq<StoredStepView>, from: nat)
    ensures
        match next_pending(steps, from) {
            Some(position) => pending_count(steps, from) == 1 + pending_count(
                steps,
                position + 1,
            ),
            None => pending_count(steps, from) == 0,
        },
    decreases steps.len() - from,
{
    if from < steps.len() && steps[from as int].completed {
        lemma_pending_count(steps, from + 1);
    }
}

proof fn lemma_same_count(a: Seq<StoredStepView>, b: Seq<StoredStepView>, from: nat)
    requires
        a.len() == b.len(),
        forall|i: int| from <= i < a.len() ==> #[trigger] a[i] == b[i],
    ensures
        pending_count(a, from) == pending_count(b, from),
    decreases a.len() - from,
{
    if from < a.len() {
        lemma_same_count(a, b, from + 1);
    }
}

/// A step without a tool is completed in one turn.
proof fn lemma_plain_step(session: SessionView, host: HostView, from: nat, position: nat)
    requires
        well_formed(session.run),
        session.phase == (SessionPhaseView::Scanning { position: from }),
        next_pending(session.run.steps, from) == Some(position),
        position < session.run.steps.len(),
        !session.run.steps[position as int].completed,
        session.run.steps[position as int].spec is None,
    ensures
        ({
            let next = session_turns((session, SessionRequestView::Proceed, host), 1);
            &&& next.0.phase == SessionPhaseView::Scanning { position: position + 1 }
            &&& next.1 == SessionRequestView::Proceed
            &&& next.2 == host
            &&& next.0.run.steps == with_done(
                session.run.steps,
                position,
                plain_output(session.run.steps[position as int].id),
            )
            &&& well_formed(next.0.run)
        }),
{
    let step = session.run.steps[position as int];
    lemma_unique_position(session.run, position);
    completion_continues(session.run, step.index, plain_output(step.id));
    reveal_with_fuel(session_turns, 2);
}

/// A session on a run whose steps to do use no tool comes to a good end on any
/// host, wherever it was interrupted before: each of these steps is completed
/// with its own output, the others stay as they were, and the run succeeded.
#[verifier::rlimit(50)]
pub proof fn plain_sessions_succeed(session: SessionView, host: HostView, from: nat)
    requires
        well_formed(session.run),
        session.phase == (SessionPhaseView::Scanning { position: from }),
        done_before(session.run.steps, from),
        forall|i: int|
            0 <= i < session.run.steps.len() && !(
            #[trigger] session.run.steps[i]).completed ==> session.run.steps[i].spec is None,
    ensures
        ({
            let steps = session.run.steps;
            let end = session_turns(
                (session, SessionRequestView::Proceed, host),
                pending_count(steps, from) + 1,
            );
            &&& end.1 == SessionRequestView::Done(Ok(()))
            &&& end.2 == host
            &&& end.0.run.status == RunStatus::Succeeded
            &&& end.0.run.steps.len() == steps.len()
            &&& forall|i: int|
                0 <= i < steps.len() ==> #[trigger] end.0.run.steps[i] == if steps[i].completed {
                    steps[i]
                } else {
                    StoredStepView {
                        completed: true,
                        output: Some(plain_output(steps[i].id)),
                        ..steps[i]
                    }
                }
        }),
    decreases session.run.steps.len() - from,
{
    let start = (session, SessionRequestView::Proceed, host);
    let run = session.run;
    lemma_next_pending(run.steps, from);
    lemma_pending_count(run.steps, from);
    match next_pending(run.steps, from) {
        None => {
            assert(done_before(run.steps, run.steps.len())) by {
                assert forall|i: int| 0 <= i < run.steps.len() implies (
                #[trigger] run.steps[i]).completed by {
                    if i >= from {
                        assert(run.steps[i].completed);
                    }
                }
            }
            lemma_last_turn(session, host, from);
        },
        Some(position) => {
            let step = run.steps[position as int];
            assert(step.spec is None);
            lemma_plain_step(session, host, from, position);
            let next = session_turns(start, 1);
            let after = next.0.run.steps;
            assert forall|i: int| 0 <= i < position + 1 && i < after.len() implies (
            #[trigger] after[i]).completed by {
                if i < from {
                    assert(run.steps[i].completed);
                } else if i < position {
                    assert(run.steps[i].completed);
                }
            }
            assert forall|i: int| 0 <= i < after.len() && !(
            #[trigger] after[i]).completed implies after[i].spec is None by {
                assert(after[i] == run.steps[i]);
            }
            plain_sessions_succeed(next.0, host, position + 1);
            lemma_same_count(after, run.steps, position + 1);
            let rest = pending_count(after, position + 1) + 1;
            lemma_turns_joined(start, 1, rest);
            let end = session_turns(next, rest);
            assert forall|i: int| 0 <= i < run.steps.len() implies #[trigger] end.0.run.steps[i]
                == if run.steps[i].completed {
                run.steps[i]
            } else {
                StoredStepView {
                    completed: true,
                    output: Some(plain_output(run.steps[i].id)),
                    ..run.steps[i]
                }
            } by {
                if i != position {
                    assert(after[i] == run.steps[i]);
                }
            }
        },
    }
}

// The repair of one place

/// One turn of a repair.
pub open spec fn fix_turn(state: (RepoFixView, FixStepView, HostView)) -> (
    RepoFixView,
    FixStepView,
    HostView,
) {
    match state.1 {
        FixStepView::Done(_) => state,
        FixStepView::Ask(request) => {
            let (host, reply) = host_answers(state.2, request);
            let next = fix_next(state.0, reply);
            (next.0, next.1, host)
        },
    }
}

/// A number of turns of a repair.
pub open spec fn fix_turns(state: (RepoFixView, FixStepView, HostView), count: nat) -> (
    RepoFixView,
    FixStepView,
    HostView,
)
    decreases count,
{
    if count == 0 {
        state
    } else {
        fix_turn(fix_turns(state, (count - 1) as nat))
    }
}

proof fn lemma_fix_turns_joined(
    state: (RepoFixView, FixStepView, HostView),
    first: nat,
    second: nat,
)
    ensures
        fix_turns(fix_turns(state, first), second) == fix_turns(state, first + second),
    decreases second,
{
    if second > 0 {
        lemma_fix_turns_joined(state, first, (second - 1) as nat);
    }
}

/// A repair at work does what its session does.
proof fn lemma_fix_follows(
    order: FixOrderView,
    replacement: Seq<char>,
    state: (SessionView, SessionRequestView, HostView),
    count: nat,
)
    requires
        state.1 !is Done,
    ensures
        ({
            let fix = RepoFixView {
                order,
                phase: FixPhaseView::Working { session: state.0, replacement },
            };
            let followed = session_turns(state, count);
            let works = fix_works(order, replacement, (followed.0, followed.1));
            fix_turns((fix, FixStepView::Ask(state.1), state.2), count) == (
                works.0,
                works.1,
                followed.2,
            )
        }),
    decreases count,
{
    if count > 0 {
        lemma_fix_follows(order, replacement, state, (count - 1) as nat);
    }
}

/// What the repair of one place is to come to.
pub open spec fn fix_aim(order: FixOrderView, replacement: Seq<char>) -> AimView {
    AimView { first: 0, path: order.path, contents: replacement, expected: order.replace }
}

/// The run of a repair of one place can be taken up from its creation on.
proof fn lemma_created_repair(order: FixOrderView, host: HostView, source: Seq<char>)
    requires
        order.find.len() > 0,
        occurrences(source, order.find, 0) == 1,
    ensures
        ({
            let replacement = edited(source, order.path, order.find, order.replace)->Ok_0;
            let run = fix_run(order, host.root, source, replacement)->Ok_0;
            let aim = fix_aim(order, replacement);
            &&& resumable_at(run, host, aim, 0)
            &&& !recorded_at(run, host, aim, 0)
            &&& has_text(aim.contents, aim.expected)
        }),
{
    let replacement = edited(source, order.path, order.find, order.replace)->Ok_0;
    repairs_can_be_created(order, host.root, source, replacement);
    edits_write_what_is_checked(source, order.path, order.find, order.replace);
    let run = fix_run(order, host.root, source, replacement)->Ok_0;
    let specs = aim_specs(run, host, fix_aim(order, replacement));
    assert forall|i: nat| 0 <= i < 4 implies {
        &&& !run.steps[(0 + i) as int].completed
        &&& run.steps[(0 + i) as int].spec == Some(#[trigger] specs[i as int])
    } by {
        assert(run.steps[i as int].spec == Some(specs[i as int]));
    }
}

/// However often a repair of one place is killed after its run was created, and
/// wherever, it comes to a good end when it is taken up once more and left
/// alone: the text is replaced in the file, every step is completed, and the
/// run succeeded.
pub proof fn killed_fixes_succeed(
    order: FixOrderView,
    host: HostView,
    kills: Seq<(nat, bool)>,
)
    requires
        order.find.len() > 0,
        serves(host, order.style, order.path),
        occurrences(host.contents, order.find, 0) == 1,
    ensures
        ({
            let replacement = edited(host.contents, order.path, order.find, order.replace)->Ok_0;
            let run = fix_run(order, host.root, host.contents, replacement)->Ok_0;
            let (kept, left) = after_kills(run, host, order.pause_ms, order.style, kills);
            let session = session_started(kept, order.pause_ms, order.style);
            exists|count: nat|
                repaired(
                    #[trigger] session_turns(
                        (session, SessionRequestView::Proceed, left),
                        count,
                    ),
                    fix_aim(order, replacement),
                )
        }),
{
    let replacement = edited(host.contents, order.path, order.find, order.replace)->Ok_0;
    let run = fix_run(order, host.root, host.contents, replacement)->Ok_0;
    lemma_created_repair(order, host, host.contents);
    killed_repairs_succeed(
        run,
        host,
        fix_aim(order, replacement),
        order.pause_ms,
        order.style,
        kills,
    );
}

/// A repair whose text stands at exactly one place of the file comes to a good
/// end on a host that serves its path: the text is replaced in the file, the
/// repair gives the new text back, every step of its run is completed, and the
/// run succeeded.
#[verifier::rlimit(50)]
pub proof fn repairs_succeed(order: FixOrderView, host: HostView)
    requires
        order.find.len() > 0,
        serves(host, order.style, order.path),
        occurrences(host.contents, order.find, 0) == 1,
    ensures
        ({
            let begun = fix_started(order);
            let end = fix_turns((begun.0, begun.1, host), 24);
            let replacement = edited(host.contents, order.path, order.find, order.replace)->Ok_0;
            &&& end.1 == FixStepView::Done(
                Ok(RepoFixResultView { run_id: order.run_id, output: replacement }),
            )
            &&& end.2.contents == replacement
            &&& end.0.phase matches FixPhaseView::Working { session, .. } && {
                &&& session.run.status == RunStatus::Succeeded
                &&& done_before(session.run.steps, session.run.steps.len())
            }
        }),
{
    let style = order.style;
    let policy = workspace_policy(host.root, style);
    let action = ToolActionView::ReadFile(order.path);
    let source = host.contents;
    let replacement = edited(source, order.path, order.find, order.replace)->Ok_0;
    let begun = fix_started(order);
    let s0 = (begun.0, begun.1, host);
    assert(policy.tools.contains(Tool::ReadFile));
    let started = call_started(policy, action, false);
    let s1 = (
        RepoFixView {
            order,
            phase: FixPhaseView::Reading { root: host.root, policy, call: started.0 },
        },
        FixStepView::Ask(
            SessionRequestView::File(
                FileRequestView::Canonicalize(joined_path(style, host.root, order.path)),
            ),
        ),
        host,
    );
    assert(fix_turn(s0) == s1);
    let reading = call_resumed(policy, started.0, FileReplyView::Path(Ok(host.target)));
    let s2 = (
        RepoFixView {
            order,
            phase: FixPhaseView::Reading { root: host.root, policy, call: reading.0 },
        },
        FixStepView::Ask(SessionRequestView::File(FileRequestView::ReadText(host.target))),
        host,
    );
    assert(fix_turn(s1) == s2);
    repairs_can_be_created(order, host.root, source, replacement);
    let run = fix_run(order, host.root, source, replacement)->Ok_0;
    let session = session_started(run, order.pause_ms, style);
    let s3 = (
        RepoFixView { order, phase: FixPhaseView::Working { session, replacement } },
        FixStepView::Ask(SessionRequestView::Proceed),
        host,
    );
    assert(fix_turn(s2) == s3);
    assert(fix_turns(s0, 3) == s3) by {
        reveal_with_fuel(fix_turns, 4);
    }
    lemma_created_repair(order, host, source);
    let aim = fix_aim(order, replacement);
    lemma_taken_up(run, host, aim, 0, order.pause_ms, style);
    repair_sessions_succeed(session, host, aim, 0);
    reveal_with_fuel(turns_left, 5);
    lemma_fix_follows(
        order,
        replacement,
        (session, SessionRequestView::Proceed, host),
        21,
    );
    lemma_fix_turns_joined(s0, 3, 21);
}

// The repair by the plan of a model

/// One turn of a planned repair, with a model that gives one answer.
pub open spec fn planner_turn(
    state: (PlannerView, PlannerStepView, HostView),
    response: ModelResponseView,
) -> (PlannerView, PlannerStepView, HostView) {
    match state.1 {
        PlannerStepView::Done(_) => state,
        PlannerStepView::Complete => {
            let next = planner_next(state.0, PlannerReplyView::Completed(Ok(response)));
            (next.0, next.1, state.2)
        },
        PlannerStepView::Ask(request) => {
            let (host, reply) = host_answers(state.2, request);
            let next = planner_next(state.0, PlannerReplyView::Host(reply));
            (next.0, next.1, host)
        },
    }
}

/// A number of turns of a planned repair.
pub open spec fn planner_turns(
    state: (PlannerView, PlannerStepView, HostView),
    response: ModelResponseView,
    count: nat,
) -> (PlannerView, PlannerStepView, HostView)
    decreases count,
{
    if count == 0 {
        state
    } else {
        planner_turn(planner_turns(state, response, (count - 1) as nat), response)
    }
}

proof fn lemma_planner_turns_joined(
    state: (PlannerView, PlannerStepView, HostView),
    response: ModelResponseView,
    first: nat,
    second: nat,
)
    ensures
        planner_turns(planner_turns(state, response, first), response, second) == planner_turns(
            state,
            response,
            first + second,
        ),
    decreases second,
{
    if second > 0 {
        lemma_planner_turns_joined(state, response, first, (second - 1) as nat);
    }
}

/// A planned repair at work does what its session does.
proof fn lemma_planner_follows(
    order: PlanOrderView,
    summary: Seq<char>,
    response: ModelResponseView,
    state: (SessionView, SessionRequestView, HostView),
    count: nat,
)
    requires
        state.1 !is Done,
    ensures
        ({
            let planner = PlannerView {
                order,
                phase: PlannerPhaseView::Working { session: state.0, summary },
            };
            let followed = session_turns(state, count);
            let works = planner_works(order, summary, (followed.0, followed.1));
            planner_turns((planner, PlannerStepView::Ask(state.1), state.2), response, count) == (
                works.0,
                works.1,
                followed.2,
            )
        }),
    decreases count,
{
    if count > 0 {
        lemma_planner_follows(order, summary, response, state, (count - 1) as nat);
    }
}

/// The run of a plan that the model gave: its one step is done.
proof fn lemma_planned(order: PlanOrderView, response: ModelResponseView)
    requires
        request_payload(order.request) is Ok,
    ensures
        planner_asks(order, request_payload(order.request)).1 is Complete,
        ({
            let asked = planner_asks(order, request_payload(order.request)).0;
            &&& asked.order == order
            &&& asked.phase matches PlannerPhaseView::Planning { run } && {
                let (ended, text) = llm_ended(run, 0, Ok(response));
                &&& text == Ok::<Seq<char>, ExecutionErrorView>(response.text)
                &&& is_planning_run(ended)
                &&& ended.steps[0].completed
                &&& ended.run_id == order.run_id
                &&& ended.results.len() == 0
            }
        }),
{
    numbered_steps_can_be_created(order.run_id, 1);
    created_run_is_well_formed(order.run_id, step_sequence(1));
    let created = created_run(order.run_id, step_sequence(1))->Ok_0;
    assert(created.steps[0] == pending_step(step_sequence(1)[0]));
    let planning = planning_run(order)->Ok_0;
    event_continues(created, "agent.created"@, None, planning.events.last().payload);
    starting_continues(planning);
    let started = started_run(planning);
    lemma_unique_position(started, 0);
    let asked = asked_run(started, 0, request_payload(order.request)->Ok_0);
    event_continues(started, "llm.request"@, Some(0), asked.events.last().payload);
    let answered = answered_run(asked, 0, Ok(response));
    event_continues(asked, "llm.response"@, Some(0), answered.events.last().payload);
    lemma_unique_position(answered, 0);
    completion_continues(answered, 0, response.text);
}

/// A planned repair in a trial without a fault so far.
spec fn trying(
    order: PlanOrderView,
    run: RunView,
    fix: PlannedFixView,
    host: HostView,
    round: nat,
    next: (ToolCallView, ToolProgressView),
) -> (PlannerView, PlannerStepView, HostView) {
    (
        PlannerView {
            order,
            phase: PlannerPhaseView::Trying {
                run,
                fix,
                root: host.root,
                policy: workspace_policy(host.root, order.style),
                trials: TrialsView { round, fault: None },
                call: next.0,
            },
        },
        PlannerStepView::Ask(SessionRequestView::File(next.1->Ask_0)),
        host,
    )
}

/// An accepted plan for a path that the host serves passes its trials.
#[verifier::rlimit(50)]
proof fn lemma_trials(
    order: PlanOrderView,
    response: ModelResponseView,
    run: RunView,
    fix: PlannedFixView,
    host: HostView,
)
    requires
        is_planning_run(run),
        serves(host, order.style, fix.plan.path),
    ensures
        ({
            let planner = PlannerView { order, phase: PlannerPhaseView::Reopening { run, fix } };
            let step = PlannerStepView::Ask(SessionRequestView::Open(order.workspace));
            let extended = repair_run(order, run, fix, host.root)->Ok_0;
            planner_turns((planner, step, host), response, 5) == (
                PlannerView {
                    order,
                    phase: PlannerPhaseView::Working {
                        session: session_started(extended, order.pause_ms, order.style),
                        summary: fix.plan.summary,
                    },
                },
                PlannerStepView::Ask(SessionRequestView::Proceed),
                host,
            )
        }),
{
    let policy = workspace_policy(host.root, order.style);
    assert(policy.tools.contains(Tool::ReadFile));
    assert(policy.tools.contains(Tool::WriteFile));
    let planner = PlannerView { order, phase: PlannerPhaseView::Reopening { run, fix } };
    let step = PlannerStepView::Ask(SessionRequestView::Open(order.workspace));
    let s0 = (planner, step, host);
    let s1 = trying(
        order,
        run,
        fix,
        host,
        0,
        call_started(policy, trial_action(fix.plan, 0), true),
    );
    assert(planner_turn(s0, response) == s1);
    let parent = write_target(policy, fix.plan.path)->Ok_0.0;
    let writing = call_started(policy, trial_action(fix.plan, 1), true);
    let s2 = trying(order, run, fix, host, 1, writing);
    assert(planner_turn(s1, response) == s2) by {
        reveal_with_fuel(planner_tries, 2);
    }
    let checking = call_resumed(policy, writing.0, FileReplyView::Path(Ok(host.resolved[parent])));
    let s3 = trying(order, run, fix, host, 1, checking);
    assert(planner_turn(s2, response) == s3);
    let s4 = trying(
        order,
        run,
        fix,
        host,
        2,
        call_started(policy, trial_action(fix.plan, 2), true),
    );
    assert(planner_turn(s3, response) == s4) by {
        reveal_with_fuel(planner_tries, 2);
    }
    accepted_plans_can_be_carried_out(order, run, fix, host.root);
    reveal_with_fuel(planner_turns, 6);
    assert(planner_turns(s0, response, 5) == planner_turn(s4, response));
}

/// What a planned repair is to come to.
pub open spec fn plan_aim(fix: RepoFixPlanView) -> AimView {
    AimView { first: 1, path: fix.path, contents: fix.contents, expected: fix.expected }
}

/// The run of an accepted plan can be taken up as soon as it is extended.
proof fn lemma_carried_out(order: PlanOrderView, run: RunView, fix: PlannedFixView, host: HostView)
    requires
        is_planning_run(run),
        run.run_id == order.run_id,
        run.results.len() == 0,
        run.steps[0].completed,
    ensures
        ({
            let extended = repair_run(order, run, fix, host.root)->Ok_0;
            let aim = plan_aim(fix.plan);
            &&& resumable_at(extended, host, aim, 0)
            &&& !recorded_at(extended, host, aim, 0)
        }),
{
    accepted_plans_can_be_carried_out(order, run, fix, host.root);
    let extended = repair_run(order, run, fix, host.root)->Ok_0;
    let specs = aim_specs(extended, host, plan_aim(fix.plan));
    assert forall|i: nat| 0 <= i < 4 implies {
        &&& !extended.steps[(1 + i) as int].completed
        &&& extended.steps[(1 + i) as int].spec == Some(#[trigger] specs[i as int])
    } by {
        assert(extended.steps[1 + i as int].spec == Some(specs[i as int]));
    }
}

/// However often a planned repair is killed after its run was extended by the
/// steps of its plan, and wherever, it comes to a good end when it is taken up
/// once more and left alone.
pub proof fn killed_planned_repairs_succeed(
    order: PlanOrderView,
    run: RunView,
    fix: PlannedFixView,
    host: HostView,
    kills: Seq<(nat, bool)>,
)
    requires
        is_planning_run(run),
        run.run_id == order.run_id,
        run.results.len() == 0,
        run.steps[0].completed,
        has_text(fix.plan.contents, fix.plan.expected),
        serves(host, order.style, fix.plan.path),
    ensures
        ({
            let extended = repair_run(order, run, fix, host.root)->Ok_0;
            let (kept, left) = after_kills(extended, host, order.pause_ms, order.style, kills);
            let session = session_started(kept, order.pause_ms, order.style);
            exists|count: nat|
                repaired(
                    #[trigger] session_turns(
                        (session, SessionRequestView::Proceed, left),
                        count,
                    ),
                    plan_aim(fix.plan),
                )
        }),
{
    lemma_carried_out(order, run, fix, host);
    killed_repairs_succeed(
        repair_run(order, run, fix, host.root)->Ok_0,
        host,
        plan_aim(fix.plan),
        order.pause_ms,
        order.style,
        kills,
    );
}

/// A planned repair comes to a good end on a host that serves its path, where
/// the model answers with a plan that is accepted and whose contents hold the
/// text that is checked: the file has the contents of the plan, the repair gives
/// its summary back, every step of its run is completed, and the run succeeded.
#[verifier::rlimit(50)]
pub proof fn planned_repairs_succeed(
    order: PlanOrderView,
    response: ModelResponseView,
    plan: AgentPlanView,
    fix: RepoFixPlanView,
    host: HostView,
)
    requires
        request_payload(order.request) is Ok,
        plan_from(plan_json(response.text), order.style) == Ok::<AgentPlanView, PlanErrorView>(
            plan,
        ),
        fix_plan(plan) == Ok::<RepoFixPlanView, ExecutionErrorView>(fix),
        has_text(fix.contents, fix.expected),
        serves(host, order.style, fix.path),
    ensures
        ({
            let begun = planner_started(order);
            let end = planner_turns((begun.0, begun.1, host), response, 28);
            &&& end.1 == PlannerStepView::Done(
                Ok(RepoFixResultView { run_id: order.run_id, output: fix.summary }),
            )
            &&& end.2.contents == fix.contents
            &&& end.0.phase matches PlannerPhaseView::Working { session, .. } && {
                &&& session.run.status == RunStatus::Succeeded
                &&& done_before(session.run.steps, session.run.steps.len())
            }
        }),
{
    let begun = planner_started(order);
    let s0 = (begun.0, begun.1, host);
    let asked = planner_asks(order, request_payload(order.request));
    let s1 = (asked.0, asked.1, host);
    assert(planner_turn(s0, response) == s1);
    lemma_planned(order, response);
    let run = llm_ended(asked.0.phase->Planning_run, 0, Ok(response)).0;
    let planned = PlannedFixView { plan: fix, text: response.text };
    let s2 = (
        PlannerView { order, phase: PlannerPhaseView::Reopening { run, fix: planned } },
        PlannerStepView::Ask(SessionRequestView::Open(order.workspace)),
        host,
    );
    assert(planner_turn(s1, response) == s2);
    assert(planner_turns(s0, response, 2) == s2) by {
        reveal_with_fuel(planner_turns, 3);
    }
    lemma_trials(order, response, run, planned, host);
    lemma_carried_out(order, run, planned, host);
    let extended = repair_run(order, run, planned, host.root)->Ok_0;
    let session = session_started(extended, order.pause_ms, order.style);
    lemma_taken_up(extended, host, plan_aim(fix), 0, order.pause_ms, order.style);
    repair_sessions_succeed(session, host, plan_aim(fix), 0);
    reveal_with_fuel(turns_left, 5);
    lemma_planner_follows(
        order,
        fix.summary,
        response,
        (session, SessionRequestView::Proceed, host),
        21,
    );
    lemma_planner_turns_joined(s0, response, 2, 5);
    lemma_planner_turns_joined(s0, response, 7, 21);
}

} // verus!
