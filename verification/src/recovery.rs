//! What holds of a run whenever it is interrupted and taken up again.

use crate::containment::{call_is_sound, lemma_resumed, lemma_started, permitted};
use crate::exec::{plain_output, ExecutionErrorView};
use crate::gate::{
    gate_action, gate_resumed, gate_started, gate_step, GateQuestionView, GateStepView,
};
use crate::history::{
    completion_continues, continues, continues_is_transitive, done_output, event_continues,
    finishing_continues, result_continues, starting_continues, well_formed,
};
use crate::path::PathStyle;
use crate::run::RunStatus;
use crate::sandbox::{
    call_resumed, call_started, output_text, sandbox_error_text, PolicyView, SandboxErrorView,
    ToolCallView, ToolProgressView,
};
use crate::session::{
    deduplicated_run, invoked_run, lemma_next_pending, next_pending, resulted_run,
    session_checks, session_completes, session_next, session_opened, session_over, session_scans,
    session_started, session_takes, session_uses, stopped_run, task_of, task_policy,
    SessionPhaseView, SessionReplyView, SessionRequestView, SessionView, StepTaskView,
    TaskWorkView,
};
use crate::store::{
    completed_run, lemma_result_stays, lemma_step_position, result_for, started_run,
    step_position, with_event, with_result, EventView, RunView, StoredStepView, ToolResultView,
    ToolStepSpecView,
};
use vstd::prelude::*;

verus! {

/// What may happen to a session: it is told something, or the process ends and
/// the run is taken up again as it was kept.
pub enum Happening {
    Told(SessionReplyView),
    Crash,
}

/// A session after a number of happenings, and what it asks for.
pub open spec fn session_after(
    run: RunView,
    pause_ms: nat,
    style: PathStyle,
    trace: Seq<Happening>,
) -> (SessionView, SessionRequestView)
    decreases trace.len(),
{
    if trace.len() == 0 {
        (session_started(run, pause_ms, style), SessionRequestView::Proceed)
    } else {
        let session = session_after(run, pause_ms, style, trace.drop_last()).0;
        match trace.last() {
            Happening::Told(reply) => session_next(session, reply),
            Happening::Crash => (
                session_started(session.run, pause_ms, style),
                SessionRequestView::Proceed,
            ),
        }
    }
}

// What every session keeps

/// Whether every step before a position is completed.
pub open spec fn done_before(steps: Seq<StoredStepView>, position: nat) -> bool {
    forall|i: int| 0 <= i < position && i < steps.len() ==> (#[trigger] steps[i]).completed
}

/// Whether a session works on a step: all before it are completed, and it is
/// not.
pub open spec fn in_work(run: RunView, position: nat, index: nat) -> bool {
    &&& position < run.steps.len()
    &&& run.steps[position as int].index == index
    &&& !run.steps[position as int].completed
    &&& run.steps[position as int].spec is Some
    &&& done_before(run.steps, position)
}

/// The key of the step at a position.
pub open spec fn key_at(run: RunView, position: nat) -> Seq<char> {
    run.steps[position as int].spec->0.idempotency_key
}

/// What holds of a session at all times.
pub open spec fn session_is_sound(session: SessionView) -> bool {
    let run = session.run;
    &&& well_formed(run)
    &&& match session.phase {
        SessionPhaseView::Scanning { position } => done_before(run.steps, position),
        SessionPhaseView::Opening { position, index, task } => {
            &&& in_work(run, position, index)
            &&& task_of(run.steps[position as int].spec->0) == Ok::<
                StepTaskView,
                ExecutionErrorView,
            >(task)
            &&& result_for(run.results, task.key) is None
        },
        SessionPhaseView::Using { position, index, key, policy, call } => {
            &&& in_work(run, position, index)
            &&& key_at(run, position) == key
            &&& result_for(run.results, key) is None
            &&& call_is_sound(policy, call.action, false, call)
        },
        SessionPhaseView::Checking { position, index, check } => {
            &&& in_work(run, position, index)
            &&& result_for(run.results, key_at(run, position)) is None
            &&& call_is_sound(check.policy, check.call.action, false, check.call)
        },
        SessionPhaseView::Pausing { position, index, output } => {
            &&& in_work(run, position, index)
            &&& result_for(run.results, key_at(run, position)) == Some(output)
        },
        SessionPhaseView::Closed => true,
    }
}

/// What holds of what a session asks for.
pub open spec fn request_is_sound(session: SessionView, request: SessionRequestView) -> bool {
    match request {
        SessionRequestView::Done(Ok(())) => {
            &&& session.run.status == RunStatus::Succeeded
            &&& done_before(session.run.steps, session.run.steps.len())
        },
        SessionRequestView::File(request) => match session.phase {
            SessionPhaseView::Using { policy, call, .. } => permitted(
                policy,
                call.action,
                false,
                request,
            ),
            SessionPhaseView::Checking { check, .. } => permitted(
                check.policy,
                check.call.action,
                false,
                request,
            ),
            _ => false,
        },
        SessionRequestView::Open(root) => session.phase matches SessionPhaseView::Opening {
            task,
            ..
        } && task.root == root,
        _ => true,
    }
}

/// Whether a session was led on as it should be: it is sound, it asks only for
/// what it may, and the run continues.
pub open spec fn leads_on(before: SessionView, next: (SessionView, SessionRequestView)) -> bool {
    &&& session_is_sound(next.0)
    &&& request_is_sound(next.0, next.1)
    &&& continues(before.run, next.0.run)
    &&& same_specs(before.run.steps, next.0.run.steps)
}

/// Whether the steps still stand for the same work.
pub open spec fn same_specs(before: Seq<StoredStepView>, after: Seq<StoredStepView>) -> bool {
    &&& after.len() == before.len()
    &&& forall|i: int|
        #![trigger after[i]]
        #![trigger before[i]]
        0 <= i < before.len() ==> after[i].index == before[i].index && after[i].id == before[i].id
            && after[i].spec == before[i].spec
}

/// A step is the first with its index.
pub proof fn lemma_unique_position(run: RunView, position: nat)
    requires
        well_formed(run),
        position < run.steps.len(),
    ensures
        step_position(run.steps, run.steps[position as int].index) == Some(position as int),
{
    let index = run.steps[position as int].index;
    lemma_step_position(run.steps, index);
    let found = step_position(run.steps, index);
    if found is None {
        assert(run.steps[position as int].index != index);
    } else if found->0 < position {
        assert(run.steps[found->0].index < run.steps[position as int].index);
    }
}

proof fn lemma_completes(session: SessionView, position: nat, index: nat, output: Seq<char>)
    requires
        well_formed(session.run),
        position < session.run.steps.len(),
        session.run.steps[position as int].index == index,
        done_before(session.run.steps, position),
    ensures
        leads_on(session, session_completes(session, position, index, output)),
{
    lemma_unique_position(session.run, position);
    completion_continues(session.run, index, output);
    let next = completed_run(session.run, index, output)->Ok_0;
    assert(done_before(next.steps, position + 1));
}

proof fn lemma_over(session: SessionView, error: ExecutionErrorView)
    requires
        well_formed(session.run),
    ensures
        leads_on(session, session_over(session, Err(error))),
{
    assert(continues(session.run, session.run)) by {
        assert(session.run.events.take(session.run.events.len() as int) =~= session.run.events);
        assert(session.run.results.take(session.run.results.len() as int) =~= session.run.results);
    }
}

proof fn lemma_leads_on_from(
    before: SessionView,
    middle: SessionView,
    next: (SessionView, SessionRequestView),
)
    requires
        continues(before.run, middle.run),
        same_specs(before.run.steps, middle.run.steps),
        leads_on(middle, next),
    ensures
        leads_on(before, next),
{
    continues_is_transitive(before.run, middle.run, next.0.run);
    assert forall|i: int|
        #![trigger next.0.run.steps[i]]
        #![trigger before.run.steps[i]]
        0 <= i < before.run.steps.len() implies next.0.run.steps[i].index
        == before.run.steps[i].index && next.0.run.steps[i].id == before.run.steps[i].id
        && next.0.run.steps[i].spec == before.run.steps[i].spec by {
        assert(middle.run.steps[i].index == before.run.steps[i].index);
    }
}

proof fn lemma_new_result(results: Seq<ToolResultView>, key: Seq<char>, output: Seq<char>)
    requires
        result_for(results, key) is None,
    ensures
        result_for(
            results.push(ToolResultView { idempotency_key: key, output }),
            key,
        ) == Some(output),
{
    let after = results.push(ToolResultView { idempotency_key: key, output });
    assert(after.drop_last() =~= results);
}

proof fn lemma_reflexive(run: RunView)
    ensures
        continues(run, run),
{
    assert(run.events.take(run.events.len() as int) =~= run.events);
    assert(run.results.take(run.results.len() as int) =~= run.results);
}

proof fn lemma_uses(
    session: SessionView,
    position: nat,
    index: nat,
    key: Seq<char>,
    policy: PolicyView,
    next: (ToolCallView, ToolProgressView),
)
    requires
        well_formed(session.run),
        in_work(session.run, position, index),
        key_at(session.run, position) == key,
        result_for(session.run.results, key) is None,
        call_is_sound(policy, next.0.action, false, next.0),
        next.1 matches ToolProgressView::Ask(request) ==> permitted(
            policy,
            next.0.action,
            false,
            request,
        ),
    ensures
        leads_on(session, session_uses(session, position, index, key, policy, next)),
{
    let run = session.run;
    match next.1 {
        ToolProgressView::Ask(request) => {
            lemma_reflexive(run);
        },
        ToolProgressView::Done(Ok(output)) => {
            let text = output_text(output);
            let after = resulted_run(run, index, key, text);
            result_continues(run, key, text);
            event_continues(
                with_result(run, key, text),
                "tool.result"@,
                Some(index),
                after.events.last().payload,
            );
            continues_is_transitive(run, with_result(run, key, text), after);
            lemma_new_result(run.results, key, text);
        },
        ToolProgressView::Done(Err(error)) => {
            let after = stopped_run(run, index, error);
            event_continues(
                run,
                after.events.last().event_type,
                Some(index),
                after.events.last().payload,
            );
            let stopped = SessionView { run: after, ..session };
            lemma_over(stopped, ExecutionErrorView::Sandbox(error));
            lemma_leads_on_from(
                session,
                stopped,
                session_over(stopped, Err(ExecutionErrorView::Sandbox(error))),
            );
        },
    }
}

proof fn lemma_checks(session: SessionView, position: nat, index: nat, step: GateStepView)
    requires
        well_formed(session.run),
        in_work(session.run, position, index),
        result_for(session.run.results, key_at(session.run, position)) is None,
        step matches GateStepView::Ask(check, request) ==> call_is_sound(
            check.policy,
            check.call.action,
            false,
            check.call,
        ) && permitted(check.policy, check.call.action, false, request),
    ensures
        leads_on(session, session_checks(session, position, index, step)),
{
    let run = session.run;
    match step {
        GateStepView::Ask(check, request) => {
            lemma_reflexive(run);
        },
        GateStepView::Done(result) => {
            let text = crate::gate::gate_text(result);
            let judged = SessionView {
                run: with_event(run, "gate.evaluated"@, Some(index), text),
                ..session
            };
            event_continues(run, "gate.evaluated"@, Some(index), text);
            if result.passed {
                lemma_completes(judged, position, index, result.evidence);
            } else {
                lemma_over(judged, ExecutionErrorView::GateFailed(text));
            }
            lemma_leads_on_from(session, judged, session_checks(session, position, index, step));
        },
    }
}

proof fn lemma_gate_step(
    policy: PolicyView,
    question: GateQuestionView,
    next: (ToolCallView, ToolProgressView),
)
    requires
        call_is_sound(policy, next.0.action, false, next.0),
        next.1 matches ToolProgressView::Ask(request) ==> permitted(
            policy,
            next.0.action,
            false,
            request,
        ),
    ensures
        gate_step(policy, question, next) matches GateStepView::Ask(check, request)
            ==> call_is_sound(check.policy, check.call.action, false, check.call) && permitted(
            check.policy,
            check.call.action,
            false,
            request,
        ),
{
    match question {
        GateQuestionView::IsDirectory(path) => {
            lemma_started(policy, gate_action(GateQuestionView::IsFile(path)), false);
        },
        _ => {},
    }
}

proof fn lemma_call_begins(policy: PolicyView, action: crate::sandbox::ToolActionView)
    ensures
        ({
            let next = call_started(policy, action, false);
            &&& next.0.action == action
            &&& call_is_sound(policy, next.0.action, false, next.0)
            &&& next.1 matches ToolProgressView::Ask(request) ==> permitted(
                policy,
                next.0.action,
                false,
                request,
            )
        }),
{
    lemma_started(policy, action, false);
}

proof fn lemma_opened(
    session: SessionView,
    position: nat,
    index: nat,
    task: StepTaskView,
    policy: Result<PolicyView, SandboxErrorView>,
)
    requires
        well_formed(session.run),
        in_work(session.run, position, index),
        key_at(session.run, position) == task.key,
        result_for(session.run.results, task.key) is None,
    ensures
        leads_on(session, session_opened(session, position, index, task, policy)),
{
    match task.work {
        TaskWorkView::Check { path, expected } => {
            let question = GateQuestionView::Contains { path, expected };
            if policy is Ok {
                let action = gate_action(question);
                lemma_call_begins(policy->Ok_0, action);
                lemma_gate_step(
                    policy->Ok_0,
                    question,
                    call_started(policy->Ok_0, action, false),
                );
            }
            lemma_checks(session, position, index, gate_started(policy, question));
        },
        TaskWorkView::Use(action) => match policy {
            Err(error) => {
                let after = stopped_run(session.run, index, error);
                event_continues(
                    session.run,
                    after.events.last().event_type,
                    Some(index),
                    after.events.last().payload,
                );
                let stopped = SessionView { run: after, ..session };
                lemma_over(stopped, ExecutionErrorView::Sandbox(error));
                lemma_leads_on_from(
                    session,
                    stopped,
                    session_over(stopped, Err(ExecutionErrorView::Sandbox(error))),
                );
            },
            Ok(policy) => {
                lemma_call_begins(policy, action);
                lemma_uses(
                    session,
                    position,
                    index,
                    task.key,
                    policy,
                    call_started(policy, action, false),
                );
            },
        },
    }
}

proof fn lemma_takes(session: SessionView, position: nat, index: nat, spec: ToolStepSpecView)
    requires
        well_formed(session.run),
        in_work(session.run, position, index),
        session.run.steps[position as int].spec == Some(spec),
    ensures
        leads_on(session, session_takes(session, position, index, spec)),
{
    let run = session.run;
    let key = spec.idempotency_key;
    match result_for(run.results, key) {
        Some(output) => {
            let met = SessionView { run: deduplicated_run(run, index, key), ..session };
            event_continues(run, "tool.deduplicated"@, Some(index), met.run.events.last().payload);
            lemma_completes(met, position, index, output);
            lemma_leads_on_from(session, met, session_takes(session, position, index, spec));
        },
        None => match task_of(spec) {
            Err(error) => {
                lemma_over(session, error);
            },
            Ok(task) => {
                lemma_reflexive(run);
                match task.work {
                    TaskWorkView::Use(action) => {
                        let after = invoked_run(run, index, task.key, action);
                        event_continues(
                            run,
                            "tool.invoked"@,
                            Some(index),
                            after.events.last().payload,
                        );
                    },
                    TaskWorkView::Check { .. } => {},
                }
            },
        },
    }
}

proof fn lemma_scans(session: SessionView, from: nat)
    requires
        well_formed(session.run),
        done_before(session.run.steps, from),
    ensures
        leads_on(session, session_scans(session, from)),
{
    let run = session.run;
    lemma_next_pending(run.steps, from);
    match next_pending(run.steps, from) {
        None => {
            finishing_continues(run);
            assert(done_before(run.steps, run.steps.len()));
        },
        Some(position) => {
            assert(done_before(run.steps, position));
            let step = run.steps[position as int];
            match step.spec {
                None => {
                    lemma_completes(session, position, step.index, plain_output(step.id));
                },
                Some(spec) => {
                    lemma_takes(session, position, step.index, spec);
                },
            }
        },
    }
}

/// Whatever a sound session is told, it is led on as it should be.
pub proof fn sessions_lead_on(session: SessionView, reply: SessionReplyView)
    requires
        session_is_sound(session),
    ensures
        leads_on(session, session_next(session, reply)),
{
    match (session.phase, reply) {
        (SessionPhaseView::Scanning { position }, SessionReplyView::Proceed) => {
            lemma_scans(session, position);
        },
        (
            SessionPhaseView::Opening { position, index, task },
            SessionReplyView::Opened { canonical, is_directory },
        ) => {
            lemma_opened(
                session,
                position,
                index,
                task,
                task_policy(task, canonical, is_directory, session.style),
            );
        },
        (
            SessionPhaseView::Using { position, index, key, policy, call },
            SessionReplyView::File(reply),
        ) => {
            lemma_resumed(policy, call.action, false, call, reply);
            lemma_uses(
                session,
                position,
                index,
                key,
                policy,
                call_resumed(policy, call, reply),
            );
        },
        (SessionPhaseView::Checking { position, index, check }, SessionReplyView::File(reply)) => {
            lemma_resumed(check.policy, check.call.action, false, check.call, reply);
            lemma_gate_step(
                check.policy,
                check.question,
                call_resumed(check.policy, check.call, reply),
            );
            lemma_checks(session, position, index, gate_resumed(check, reply));
        },
        (SessionPhaseView::Pausing { position, index, output }, SessionReplyView::Proceed) => {
            lemma_completes(session, position, index, output);
        },
        _ => {
            lemma_over(session, ExecutionErrorView::Sandbox(crate::sandbox::reply_mismatch()));
        },
    }
}

/// A session that takes up a well-formed run is sound.
pub proof fn sessions_start_soundly(run: RunView, pause_ms: nat, style: PathStyle)
    requires
        well_formed(run),
    ensures
        session_is_sound(session_started(run, pause_ms, style)),
        continues(run, session_started(run, pause_ms, style).run),
        same_specs(run.steps, session_started(run, pause_ms, style).run.steps),
{
    starting_continues(run);
}

/// Whatever happens to a run, however often it is interrupted, it stays well
/// formed, its trail of events and its recorded effects only grow, completed
/// steps keep their outputs, and its steps stand for the same work.
pub proof fn interrupted_runs_continue(
    run: RunView,
    pause_ms: nat,
    style: PathStyle,
    trace: Seq<Happening>,
)
    requires
        well_formed(run),
    ensures
        session_is_sound(session_after(run, pause_ms, style, trace).0),
        well_formed(session_after(run, pause_ms, style, trace).0.run),
        continues(run, session_after(run, pause_ms, style, trace).0.run),
        same_specs(run.steps, session_after(run, pause_ms, style, trace).0.run.steps),
    decreases trace.len(),
{
    if trace.len() == 0 {
        sessions_start_soundly(run, pause_ms, style);
    } else {
        let front = trace.drop_last();
        interrupted_runs_continue(run, pause_ms, style, front);
        let session = session_after(run, pause_ms, style, front).0;
        let next = session_after(run, pause_ms, style, trace).0;
        match trace.last() {
            Happening::Told(reply) => {
                sessions_lead_on(session, reply);
            },
            Happening::Crash => {
                sessions_start_soundly(session.run, pause_ms, style);
            },
        }
        continues_is_transitive(run, session.run, next.run);
        assert forall|i: int|
            #![trigger next.run.steps[i]]
            #![trigger run.steps[i]]
            0 <= i < run.steps.len() implies next.run.steps[i].index == run.steps[i].index
            && next.run.steps[i].id == run.steps[i].id && next.run.steps[i].spec
            == run.steps[i].spec by {
            assert(session.run.steps[i].index == run.steps[i].index);
        }
    }
}

/// Whatever happens to a run, it asks the host only for what the policy of the
/// step in work permits.
pub proof fn sessions_ask_only_for_what_is_permitted(
    run: RunView,
    pause_ms: nat,
    style: PathStyle,
    trace: Seq<Happening>,
)
    requires
        well_formed(run),
    ensures
        request_is_sound(
            session_after(run, pause_ms, style, trace).0,
            session_after(run, pause_ms, style, trace).1,
        ),
{
    if trace.len() > 0 {
        let front = trace.drop_last();
        interrupted_runs_continue(run, pause_ms, style, front);
        match trace.last() {
            Happening::Told(reply) => {
                sessions_lead_on(session_after(run, pause_ms, style, front).0, reply);
            },
            Happening::Crash => {},
        }
    }
}

/// A session says that all is well only when every step of the run is completed
/// and the run is marked as succeeded.
pub proof fn success_means_every_step_is_completed(
    run: RunView,
    pause_ms: nat,
    style: PathStyle,
    trace: Seq<Happening>,
)
    requires
        well_formed(run),
        session_after(run, pause_ms, style, trace).1 == SessionRequestView::Done(Ok(())),
    ensures
        session_after(run, pause_ms, style, trace).0.run.status == RunStatus::Succeeded,
        forall|i: int|
            0 <= i < run.steps.len() ==> (#[trigger] session_after(
                run,
                pause_ms,
                style,
                trace,
            ).0.run.steps[i]).completed,
{
    sessions_ask_only_for_what_is_permitted(run, pause_ms, style, trace);
    interrupted_runs_continue(run, pause_ms, style, trace);
}

// Effects happen once

/// The key of the effect that a session is bringing about.
pub open spec fn acting_key(session: SessionView) -> Option<Seq<char>> {
    match session.phase {
        SessionPhaseView::Opening { task, .. } => Some(task.key),
        SessionPhaseView::Using { key, .. } => Some(key),
        SessionPhaseView::Checking { position, .. } => Some(key_at(session.run, position)),
        _ => None,
    }
}

proof fn lemma_results_stay(before: RunView, after: RunView, key: Seq<char>)
    requires
        continues(before, after),
        result_for(before.results, key) is Some,
    ensures
        result_for(after.results, key) == result_for(before.results, key),
{
    let count = before.results.len() as int;
    assert(after.results.take(count) =~= before.results);
    lemma_result_stays(after.results, count, key);
}

/// Once the result of an effect is recorded, the effect is not brought about
/// again: whatever happens afterwards, however often the run is interrupted, no
/// session acts under that key, and the recorded result stays what it is.
pub proof fn recorded_effects_are_not_repeated(
    run: RunView,
    pause_ms: nat,
    style: PathStyle,
    trace: Seq<Happening>,
    key: Seq<char>,
)
    requires
        well_formed(run),
        result_for(run.results, key) is Some,
    ensures
        acting_key(session_after(run, pause_ms, style, trace).0) != Some(key),
        result_for(session_after(run, pause_ms, style, trace).0.run.results, key) == result_for(
            run.results,
            key,
        ),
{
    interrupted_runs_continue(run, pause_ms, style, trace);
    let session = session_after(run, pause_ms, style, trace).0;
    lemma_results_stay(run, session.run, key);
}

/// How many events of a type a step has left.
pub open spec fn event_count(events: Seq<EventView>, event_type: Seq<char>, index: nat) -> nat
    decreases events.len(),
{
    if events.len() == 0 {
        0
    } else {
        let last = events.last();
        event_count(events.drop_last(), event_type, index) + if last.event_type == event_type
            && last.step_index == Some(index) {
            1nat
        } else {
            0nat
        }
    }
}

proof fn lemma_event_count(
    run: RunView,
    event_type: Seq<char>,
    step_index: Option<nat>,
    payload: Seq<char>,
    counted: Seq<char>,
    index: nat,
)
    ensures
        event_count(
            with_event(run, event_type, step_index, payload).events,
            counted,
            index,
        ) == event_count(run.events, counted, index) + if event_type == counted && step_index
            == Some(index) {
            1nat
        } else {
            0nat
        },
{
    let after = with_event(run, event_type, step_index, payload).events;
    assert(after.drop_last() =~= run.events);
}

proof fn lemma_event_types()
    ensures
        "tool.invoked"@ != "run.started"@,
        "tool.invoked"@ != "run.finished"@,
        "tool.invoked"@ != "step.completed"@,
        "tool.invoked"@ != "checkpoint.saved"@,
        "tool.invoked"@ != "tool.deduplicated"@,
        "tool.invoked"@ != "tool.result"@,
        "tool.invoked"@ != "tool.error"@,
        "tool.invoked"@ != "sandbox.denied"@,
        "tool.invoked"@ != "gate.evaluated"@,
{
    reveal_strlit("tool.invoked");
    reveal_strlit("run.started");
    reveal_strlit("run.finished");
    reveal_strlit("step.completed");
    reveal_strlit("checkpoint.saved");
    reveal_strlit("tool.deduplicated");
    reveal_strlit("tool.result");
    reveal_strlit("tool.error");
    reveal_strlit("sandbox.denied");
    reveal_strlit("gate.evaluated");
    assert("tool.invoked"@[0] == 't');
    assert("tool.invoked"@.len() == 12);
    assert("run.finished"@[0] == 'r');
    assert("tool.invoked"@[5] == 'i');
}

/// The invocations of the step with an index.
spec fn invocations(run: RunView, index: nat) -> nat {
    event_count(run.events, "tool.invoked"@, index)
}

proof fn lemma_completion_invokes_nothing(run: RunView, at: nat, output: Seq<char>, index: nat)
    ensures
        completed_run(run, at, output) matches Ok(next) ==> invocations(next, index) == invocations(
            run,
            index,
        ),
{
    lemma_event_types();
    match step_position(run.steps, at) {
        None => {},
        Some(position) => {
            let step = run.steps[position];
            let done = StoredStepView { completed: true, output: Some(output), ..step };
            let marked = RunView { steps: run.steps.update(position, done), ..run };
            let told = with_event(marked, "step.completed"@, Some(step.index), ""@);
            lemma_event_count(
                marked,
                "step.completed"@,
                Some(step.index),
                ""@,
                "tool.invoked"@,
                index,
            );
            lemma_event_count(
                told,
                "checkpoint.saved"@,
                Some(step.index),
                crate::store::key_payload(crate::run::key_for(run.run_id, step.index)),
                "tool.invoked"@,
                index,
            );
        },
    }
}

/// Whether an invocation of the step with an index can be ruled out: its result
/// is recorded.
spec fn is_recorded(run: RunView, index: nat) -> bool {
    exists|i: int|
        0 <= i < run.steps.len() && (#[trigger] run.steps[i]).index == index
            && run.steps[i].spec is Some && result_for(
            run.results,
            run.steps[i].spec->0.idempotency_key,
        ) is Some
}

proof fn lemma_next_invokes(session: SessionView, reply: SessionReplyView, index: nat)
    requires
        session_is_sound(session),
        is_recorded(session.run, index),
    ensures
        invocations(session_next(session, reply).0.run, index) == invocations(session.run, index),
{
    lemma_event_types();
    let run = session.run;
    match (session.phase, reply) {
        (SessionPhaseView::Scanning { position: from }, SessionReplyView::Proceed) => {
            lemma_next_pending(run.steps, from);
            match next_pending(run.steps, from) {
                None => {
                    let marked = RunView { status: RunStatus::Succeeded, ..run };
                    lemma_event_count(
                        marked,
                        "run.finished"@,
                        None,
                        "status=succeeded"@,
                        "tool.invoked"@,
                        index,
                    );
                },
                Some(position) => {
                    let step = run.steps[position as int];
                    match step.spec {
                        None => {
                            lemma_completion_invokes_nothing(
                                run,
                                step.index,
                                plain_output(step.id),
                                index,
                            );
                        },
                        Some(spec) => {
                            let key = spec.idempotency_key;
                            match result_for(run.results, key) {
                                Some(output) => {
                                    let met = deduplicated_run(run, step.index, key);
                                    lemma_event_count(
                                        run,
                                        "tool.deduplicated"@,
                                        Some(step.index),
                                        met.events.last().payload,
                                        "tool.invoked"@,
                                        index,
                                    );
                                    lemma_completion_invokes_nothing(met, step.index, output, index);
                                },
                                None => {
                                    let i = choose|i: int|
                                        0 <= i < run.steps.len() && (
                                        #[trigger] run.steps[i]).index == index
                                            && run.steps[i].spec is Some && result_for(
                                            run.results,
                                            run.steps[i].spec->0.idempotency_key,
                                        ) is Some;
                                    assert(i != position);
                                    assert(step.index != index) by {
                                        if i < position {
                                            assert(run.steps[i].index
                                                < run.steps[position as int].index);
                                        } else {
                                            assert(run.steps[position as int].index
                                                < run.steps[i].index);
                                        }
                                    }
                                    if task_of(spec) is Ok {
                                        let task = task_of(spec)->Ok_0;
                                        if task.work is Use {
                                            let after = invoked_run(
                                                run,
                                                step.index,
                                                task.key,
                                                task.work->Use_0,
                                            );
                                            lemma_event_count(
                                                run,
                                                "tool.invoked"@,
                                                Some(step.index),
                                                after.events.last().payload,
                                                "tool.invoked"@,
                                                index,
                                            );
                                        }
                                    }
                                },
                            }
                        },
                    }
                },
            }
        },
        (
            SessionPhaseView::Opening { position, index: at, task },
            SessionReplyView::Opened { canonical, is_directory },
        ) => {
            let policy = task_policy(task, canonical, is_directory, session.style);
            match task.work {
                TaskWorkView::Check { path, expected } => {
                    lemma_checks_invoke_nothing(
                        session,
                        position,
                        at,
                        gate_started(policy, GateQuestionView::Contains { path, expected }),
                        index,
                    );
                },
                TaskWorkView::Use(action) => match policy {
                    Err(error) => {
                        lemma_stop_invokes_nothing(run, at, error, index);
                    },
                    Ok(policy) => {
                        lemma_uses_invoke_nothing(
                            session,
                            position,
                            at,
                            task.key,
                            policy,
                            call_started(policy, action, false),
                            index,
                        );
                    },
                },
            }
        },
        (
            SessionPhaseView::Using { position, index: at, key, policy, call },
            SessionReplyView::File(reply),
        ) => {
            lemma_uses_invoke_nothing(
                session,
                position,
                at,
                key,
                policy,
                call_resumed(policy, call, reply),
                index,
            );
        },
        (
            SessionPhaseView::Checking { position, index: at, check },
            SessionReplyView::File(reply),
        ) => {
            lemma_checks_invoke_nothing(session, position, at, gate_resumed(check, reply), index);
        },
        (
            SessionPhaseView::Pausing { position, index: at, output },
            SessionReplyView::Proceed,
        ) => {
            lemma_completion_invokes_nothing(run, at, output, index);
        },
        _ => {},
    }
}

proof fn lemma_stop_invokes_nothing(
    run: RunView,
    at: nat,
    error: SandboxErrorView,
    index: nat,
)
    ensures
        invocations(stopped_run(run, at, error), index) == invocations(run, index),
{
    lemma_event_types();
    let after = stopped_run(run, at, error);
    lemma_event_count(
        run,
        after.events.last().event_type,
        Some(at),
        after.events.last().payload,
        "tool.invoked"@,
        index,
    );
}

proof fn lemma_uses_invoke_nothing(
    session: SessionView,
    position: nat,
    at: nat,
    key: Seq<char>,
    policy: PolicyView,
    next: (ToolCallView, ToolProgressView),
    index: nat,
)
    ensures
        invocations(session_uses(session, position, at, key, policy, next).0.run, index)
            == invocations(session.run, index),
{
    lemma_event_types();
    match next.1 {
        ToolProgressView::Ask(_) => {},
        ToolProgressView::Done(Ok(output)) => {
            let kept = with_result(session.run, key, output_text(output));
            let after = resulted_run(session.run, at, key, output_text(output));
            lemma_event_count(
                kept,
                "tool.result"@,
                Some(at),
                after.events.last().payload,
                "tool.invoked"@,
                index,
            );
        },
        ToolProgressView::Done(Err(error)) => {
            lemma_stop_invokes_nothing(session.run, at, error, index);
        },
    }
}

proof fn lemma_checks_invoke_nothing(
    session: SessionView,
    position: nat,
    at: nat,
    step: GateStepView,
    index: nat,
)
    ensures
        invocations(session_checks(session, position, at, step).0.run, index) == invocations(
            session.run,
            index,
        ),
{
    lemma_event_types();
    match step {
        GateStepView::Ask(_, _) => {},
        GateStepView::Done(result) => {
            let text = crate::gate::gate_text(result);
            let judged = with_event(session.run, "gate.evaluated"@, Some(at), text);
            lemma_event_count(
                session.run,
                "gate.evaluated"@,
                Some(at),
                text,
                "tool.invoked"@,
                index,
            );
            lemma_completion_invokes_nothing(judged, at, result.evidence, index);
        },
    }
}

/// A step whose result is recorded leaves no further event of an invocation,
/// however often the run is interrupted and taken up again.
pub proof fn recorded_steps_are_not_invoked_again(
    run: RunView,
    pause_ms: nat,
    style: PathStyle,
    trace: Seq<Happening>,
    position: nat,
)
    requires
        well_formed(run),
        position < run.steps.len(),
        run.steps[position as int].spec is Some,
        result_for(run.results, key_at(run, position)) is Some,
    ensures
        event_count(
            session_after(run, pause_ms, style, trace).0.run.events,
            "tool.invoked"@,
            run.steps[position as int].index,
        ) == event_count(run.events, "tool.invoked"@, run.steps[position as int].index),
    decreases trace.len(),
{
    lemma_event_types();
    let index = run.steps[position as int].index;
    if trace.len() == 0 {
        lemma_start_invokes_nothing(run, index);
    } else {
        let front = trace.drop_last();
        recorded_steps_are_not_invoked_again(run, pause_ms, style, front, position);
        interrupted_runs_continue(run, pause_ms, style, front);
        let session = session_after(run, pause_ms, style, front).0;
        lemma_results_stay(run, session.run, key_at(run, position));
        assert(session.run.steps[position as int].index == index);
        assert(is_recorded(session.run, index));
        match trace.last() {
            Happening::Told(reply) => {
                lemma_next_invokes(session, reply, index);
            },
            Happening::Crash => {
                lemma_start_invokes_nothing(session.run, index);
            },
        }
    }
}

proof fn lemma_start_invokes_nothing(run: RunView, index: nat)
    ensures
        invocations(started_run(run), index) == invocations(run, index),
{
    lemma_event_types();
    let marked = RunView { status: RunStatus::Running, ..run };
    lemma_event_count(marked, "run.started"@, None, ""@, "tool.invoked"@, index);
}

/// A run that is interrupted after a result was recorded and before its step was
/// completed takes the recorded result when it is taken up again: the step is
/// completed with it, and an event says that the result was met again.
pub proof fn interrupted_results_complete_their_step(
    run: RunView,
    pause_ms: nat,
    style: PathStyle,
    trace: Seq<Happening>,
)
    requires
        well_formed(run),
        session_after(run, pause_ms, style, trace).0.phase is Pausing,
    ensures
        ({
            let session = session_after(run, pause_ms, style, trace).0;
            let position = session.phase->Pausing_position;
            let index = session.phase->Pausing_index;
            let output = session.phase->Pausing_output;
            let again = session_after(
                run,
                pause_ms,
                style,
                trace.push(Happening::Crash).push(Happening::Told(SessionReplyView::Proceed)),
            );
            &&& again.1 == SessionRequestView::Proceed
            &&& completed_run(
                deduplicated_run(
                    started_run(session.run),
                    index,
                    key_at(session.run, position),
                ),
                index,
                output,
            ) == Ok::<RunView, crate::store::StoreErrorView>(again.0.run)
            &&& done_output(again.0.run, index) == Some(output)
        }),
{
    interrupted_runs_continue(run, pause_ms, style, trace);
    let session = session_after(run, pause_ms, style, trace).0;
    let position = session.phase->Pausing_position;
    let index = session.phase->Pausing_index;
    let output = session.phase->Pausing_output;
    let crashed = trace.push(Happening::Crash);
    let told = crashed.push(Happening::Told(SessionReplyView::Proceed));
    assert(crashed.drop_last() =~= trace);
    assert(told.drop_last() =~= crashed);
    let resumed = session_started(session.run, pause_ms, style);
    assert(session_after(run, pause_ms, style, crashed).0 == resumed);
    starting_continues(session.run);
    lemma_next_pending(resumed.run.steps, 0);
    assert(next_pending(resumed.run.steps, 0) == Some(position)) by {
        let found = next_pending(resumed.run.steps, 0);
        if found is None {
            assert(resumed.run.steps[position as int].completed);
        } else if found->0 < position {
            assert(session.run.steps[found->0 as int].completed);
        } else if position < found->0 {
            assert(resumed.run.steps[position as int].completed);
        }
    }
    let met = deduplicated_run(resumed.run, index, key_at(session.run, position));
    event_continues(
        resumed.run,
        "tool.deduplicated"@,
        Some(index),
        met.events.last().payload,
    );
    lemma_unique_position(met, position);
    completion_continues(met, index, output);
    assert(done_output(met, index) is None);
}

/// What ends a session is the last event of its run: a denial by the policy
/// with its reason, a gate with its finding, or the success of the run.
pub proof fn endings_are_recorded(session: SessionView, reply: SessionReplyView)
    ensures
        ({
            let (next, request) = session_next(session, reply);
            let last = next.run.events.last();
            let one_more = next.run.events.len() == session.run.events.len() + 1;
            match request {
                SessionRequestView::Done(Err(ExecutionErrorView::Sandbox(error))) => {
                    error is Denied ==> {
                        &&& one_more
                        &&& last.event_type == "sandbox.denied"@
                        &&& last.payload == sandbox_error_text(error)
                    }
                },
                SessionRequestView::Done(Err(ExecutionErrorView::GateFailed(finding))) => {
                    &&& one_more
                    &&& last.event_type == "gate.evaluated"@
                    &&& last.payload == finding
                },
                SessionRequestView::Done(Ok(())) => one_more && last.event_type
                    == "run.finished"@,
                _ => true,
            }
        }),
{
}

} // verus!
