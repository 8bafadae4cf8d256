//! What holds of every repair, whatever the host and the model answer.

use crate::agent::{
    configured_steps, edited, fix_next, fix_plan, fix_reads, fix_run, fix_specs, fix_started,
    FixOrderView, FixPhaseView, FixStepView, RepoFixResultView, RepoFixView,
};
use crate::containment::{call_is_sound, lemma_resumed, lemma_started, permitted};
use crate::exec::{llm_begun, llm_ended, ExecutionErrorView};
use crate::history::{
    completion_continues, configuration_continues, created_run_is_well_formed, event_continues,
    expansion_continues, numbered_steps_can_be_created, starting_continues, well_formed,
};
use crate::model::{answered_run, request_payload, ModelErrorView, ModelResponseView};
use crate::path::is_plain_relative;
use crate::plan::{
    accepted_plans_stay_in_the_workspace, plan_check, plan_from, AgentPlanView, PlanErrorView,
};
use crate::plan_text::plan_json;
use crate::planner::{
    planner_answered, planner_asks, planner_judges, planner_next, planner_started, planner_tries,
    repair_run, trial_action, validated_run, PlanOrderView, PlannedFixView, PlannerPhaseView,
    PlannerReplyView, PlannerStepView, PlannerView, TrialsView,
};
use crate::recovery::{
    done_before, request_is_sound, session_is_sound, sessions_lead_on, sessions_start_soundly,
};
use crate::run::{step_sequence, RunStatus};
use crate::sandbox::{
    call_resumed, call_started, workspace_policy, workspace_root, PolicyView, ToolActionView,
    ToolCallView, ToolProgressView,
};
use crate::session::{SessionReplyView, SessionRequestView};
use crate::store::{
    created_run, expanded_run, lemma_step_position, pending_step, started_run, step_position,
    with_event, RunView, ToolStepSpecView,
};
use crate::text::{first_match, has_text, matches_at, occurrences};
use vstd::prelude::*;

verus! {

// One place is replaced

proof fn lemma_counted_match(text: Seq<char>, pattern: Seq<char>, from: int)
    requires
        0 <= from,
        pattern.len() > 0,
        occurrences(text, pattern, from) > 0,
    ensures
        first_match(text, pattern, from) is Some,
        from <= first_match(text, pattern, from)->0,
        matches_at(text, pattern, first_match(text, pattern, from)->0),
        occurrences(text, pattern, from) == 1 + occurrences(
            text,
            pattern,
            first_match(text, pattern, from)->0 + pattern.len(),
        ),
    decreases text.len() - from,
{
    if !matches_at(text, pattern, from) {
        lemma_counted_match(text, pattern, from + 1);
    }
}

proof fn lemma_no_occurrence(text: Seq<char>, pattern: Seq<char>, from: int, at: int)
    requires
        0 <= from <= at,
        pattern.len() > 0,
        occurrences(text, pattern, from) == 0,
    ensures
        !matches_at(text, pattern, at),
    decreases at - from,
{
    if from < at && from + pattern.len() <= text.len() {
        lemma_no_occurrence(text, pattern, from + 1, at);
    }
}

proof fn lemma_before_first(text: Seq<char>, pattern: Seq<char>, from: int, at: int)
    requires
        0 <= from <= at,
        first_match(text, pattern, from) is Some,
        at < first_match(text, pattern, from)->0,
    ensures
        !matches_at(text, pattern, at),
    decreases at - from,
{
    if from < at {
        lemma_before_first(text, pattern, from + 1, at);
    }
}

/// An edit that succeeds replaces the searched text at one place and leaves all
/// before and behind it as it was; the searched text stands nowhere else clear
/// of that place.
pub proof fn edits_change_one_place(
    source: Seq<char>,
    path: Seq<char>,
    find: Seq<char>,
    replace: Seq<char>,
) -> (at: int)
    requires
        find.len() > 0,
        edited(source, path, find, replace) is Ok,
    ensures
        0 <= at,
        at + find.len() <= source.len(),
        matches_at(source, find, at),
        edited(source, path, find, replace)->Ok_0 == source.take(at) + replace + source.skip(
            at + find.len(),
        ),
        forall|other: int|
            0 <= other < at || at + find.len() <= other ==> !(#[trigger] matches_at(
                source,
                find,
                other,
            )),
{
    lemma_counted_match(source, find, 0);
    let at = first_match(source, find, 0)->0;
    assert forall|other: int|
        0 <= other < at || at + find.len() <= other implies !(#[trigger] matches_at(
        source,
        find,
        other,
    )) by {
        if other < at {
            lemma_before_first(source, find, 0, other);
        } else {
            lemma_no_occurrence(source, find, at + find.len(), other);
        }
    }
    at
}

/// What an edit writes contains what the check of the repair looks for.
pub proof fn edits_write_what_is_checked(
    source: Seq<char>,
    path: Seq<char>,
    find: Seq<char>,
    replace: Seq<char>,
)
    requires
        find.len() > 0,
        edited(source, path, find, replace) is Ok,
    ensures
        has_text(edited(source, path, find, replace)->Ok_0, replace),
{
    let at = edits_change_one_place(source, path, find, replace);
    let result = edited(source, path, find, replace)->Ok_0;
    assert(result.subrange(at, at + replace.len()) =~= replace);
    assert(matches_at(result, replace, at));
}

// Runs of repairs

proof fn lemma_configured(
    run: RunView,
    first: nat,
    specs: Seq<ToolStepSpecView>,
)
    requires
        well_formed(run),
        first + specs.len() == run.steps.len(),
        forall|i: int| 0 <= i < run.steps.len() ==> (#[trigger] run.steps[i]).index == i,
    ensures
        configured_steps(run, first, specs) is Ok,
        ({
            let after = configured_steps(run, first, specs)->Ok_0;
            &&& well_formed(after)
            &&& after.steps.len() == run.steps.len()
            &&& after.run_id == run.run_id
            &&& after.results == run.results
            &&& forall|i: int|
                0 <= i < after.steps.len() ==> {
                    &&& (#[trigger] after.steps[i]).index == i
                    &&& after.steps[i].completed == run.steps[i].completed
                    &&& after.steps[i].spec == if i < first {
                        run.steps[i].spec
                    } else {
                        Some(specs[i - first])
                    }
                }
        }),
{
    lemma_configured_part(run, first, specs, specs.len());
    assert(specs.take(specs.len() as int) =~= specs);
}

proof fn lemma_configured_part(
    run: RunView,
    first: nat,
    specs: Seq<ToolStepSpecView>,
    count: nat,
)
    requires
        well_formed(run),
        count <= specs.len(),
        first + specs.len() == run.steps.len(),
        forall|i: int| 0 <= i < run.steps.len() ==> (#[trigger] run.steps[i]).index == i,
    ensures
        configured_steps(run, first, specs.take(count as int)) is Ok,
        ({
            let after = configured_steps(run, first, specs.take(count as int))->Ok_0;
            &&& well_formed(after)
            &&& after.steps.len() == run.steps.len()
            &&& after.run_id == run.run_id
            &&& after.results == run.results
            &&& forall|i: int|
                0 <= i < after.steps.len() ==> {
                    &&& (#[trigger] after.steps[i]).index == i
                    &&& after.steps[i].completed == run.steps[i].completed
                    &&& after.steps[i].spec == if first <= i < first + count {
                        Some(specs[i - first])
                    } else {
                        run.steps[i].spec
                    }
                }
        }),
    decreases count,
{
    if count > 0 {
        let smaller = (count - 1) as nat;
        lemma_configured_part(run, first, specs, smaller);
        let part = specs.take(count as int);
        assert(part.drop_last() =~= specs.take(smaller as int));
        let before = configured_steps(run, first, part.drop_last())->Ok_0;
        let index = (first + count - 1) as nat;
        lemma_step_position(before.steps, index);
        if step_position(before.steps, index) is None {
            assert(before.steps[index as int].index != index);
        }
        let position = step_position(before.steps, index)->0;
        assert(before.steps[position].index == position);
        configuration_continues(before, index, part.last());
        let after = configured_steps(run, first, part)->Ok_0;
        assert forall|i: int| 0 <= i < after.steps.len() implies {
            &&& (#[trigger] after.steps[i]).index == i
            &&& after.steps[i].completed == run.steps[i].completed
            &&& after.steps[i].spec == if first <= i < first + count {
                Some(specs[i - first])
            } else {
                run.steps[i].spec
            }
        } by {
            assert(before.steps[i].index == i);
        }
    }
}

/// The run of a repair can always be created: it has four steps, none of them
/// done, which read the file, write it, read it again and check it.
pub proof fn repairs_can_be_created(
    order: FixOrderView,
    root: Seq<char>,
    source: Seq<char>,
    replacement: Seq<char>,
)
    ensures
        fix_run(order, root, source, replacement) is Ok,
        ({
            let run = fix_run(order, root, source, replacement)->Ok_0;
            let specs = fix_specs(order.run_id, 0, root, order.path, replacement, order.replace);
            &&& well_formed(run)
            &&& run.run_id == order.run_id
            &&& run.results.len() == 0
            &&& run.steps.len() == 4
            &&& forall|i: int|
                0 <= i < 4 ==> !(#[trigger] run.steps[i]).completed && run.steps[i].spec == Some(
                    specs[i],
                )
        }),
{
    numbered_steps_can_be_created(order.run_id, 4);
    created_run_is_well_formed(order.run_id, step_sequence(4));
    let created = created_run(order.run_id, step_sequence(4))->Ok_0;
    let payload = crate::agent::fix_payload(order.path, source, replacement);
    event_continues(created, "agent.created"@, None, payload);
    let run = with_event(created, "agent.created"@, None, payload);
    let specs = fix_specs(order.run_id, 0, root, order.path, replacement, order.replace);
    lemma_configured(run, 0, specs);
    let after = configured_steps(run, 0, specs)->Ok_0;
    assert forall|i: int| 0 <= i < 4 implies !(#[trigger] after.steps[i]).completed
        && after.steps[i].spec == Some(specs[i]) by {
        assert(after.steps[i].index == i);
        assert(run.steps[i] == pending_step(step_sequence(4)[i]));
    }
}

// Repairs from beginning to end

/// A repair after it was told a number of things, and what it asks for.
pub open spec fn fix_after(order: FixOrderView, replies: Seq<SessionReplyView>) -> (
    RepoFixView,
    FixStepView,
)
    decreases replies.len(),
{
    if replies.len() == 0 {
        fix_started(order)
    } else {
        fix_next(fix_after(order, replies.drop_last()).0, replies.last())
    }
}

/// What holds of a repair at all times.
pub open spec fn fix_is_sound(order: FixOrderView, fix: RepoFixView) -> bool {
    &&& fix.order == order
    &&& match fix.phase {
        FixPhaseView::Reading { root, policy, call } => {
            &&& call.action == ToolActionView::ReadFile(order.path)
            &&& call_is_sound(policy, call.action, false, call)
        },
        FixPhaseView::Working { session, replacement } => session_is_sound(session),
        _ => true,
    }
}

/// What holds of what a repair asks for. Before its run exists it may only read.
pub open spec fn fix_step_is_sound(fix: RepoFixView, step: FixStepView) -> bool {
    match (fix.phase, step) {
        (FixPhaseView::Working { session, replacement }, FixStepView::Ask(request)) => {
            request_is_sound(session, request)
        },
        (FixPhaseView::Working { session, replacement }, FixStepView::Done(Ok(result))) => {
            &&& session.run.status == RunStatus::Succeeded
            &&& done_before(session.run.steps, session.run.steps.len())
            &&& result == (RepoFixResultView { run_id: fix.order.run_id, output: replacement })
        },
        (
            FixPhaseView::Reading { policy, .. },
            FixStepView::Ask(SessionRequestView::File(request)),
        ) => permitted(policy, ToolActionView::ReadFile(fix.order.path), false, request),
        (_, FixStepView::Ask(SessionRequestView::File(_))) => false,
        (_, FixStepView::Done(Ok(_))) => false,
        _ => true,
    }
}

proof fn lemma_fix_reads(
    order: FixOrderView,
    root: Seq<char>,
    policy: PolicyView,
    next: (ToolCallView, ToolProgressView),
)
    requires
        next.0.action == ToolActionView::ReadFile(order.path),
        call_is_sound(policy, next.0.action, false, next.0),
        next.1 matches ToolProgressView::Ask(request) ==> permitted(
            policy,
            next.0.action,
            false,
            request,
        ),
    ensures
        ({
            let (fix, step) = fix_reads(order, root, policy, next);
            fix_is_sound(order, fix) && fix_step_is_sound(fix, step)
        }),
{
    match next.1 {
        ToolProgressView::Done(Ok(crate::sandbox::ToolOutputView::Contents(source))) => {
            match edited(source, order.path, order.find, order.replace) {
                Ok(replacement) => {
                    repairs_can_be_created(order, root, source, replacement);
                    sessions_start_soundly(
                        fix_run(order, root, source, replacement)->Ok_0,
                        order.pause_ms,
                        order.style,
                    );
                },
                Err(_) => {},
            }
        },
        _ => {},
    }
}

/// Whatever it is told, a repair asks only for what it may: before its run
/// exists it only reads the one file, and then it asks for what the session of
/// its run permits. It succeeds only when every step of its run is completed.
pub proof fn repairs_are_sound(order: FixOrderView, replies: Seq<SessionReplyView>)
    ensures
        fix_is_sound(order, fix_after(order, replies).0),
        fix_step_is_sound(fix_after(order, replies).0, fix_after(order, replies).1),
    decreases replies.len(),
{
    if replies.len() > 0 {
        repairs_are_sound(order, replies.drop_last());
        let fix = fix_after(order, replies.drop_last()).0;
        match (fix.phase, replies.last()) {
            (FixPhaseView::Opening, SessionReplyView::Opened { canonical, is_directory }) => {
                match workspace_root(canonical, is_directory) {
                    Ok(root) => {
                        let policy = workspace_policy(root, order.style);
                        let action = ToolActionView::ReadFile(order.path);
                        lemma_started(policy, action, false);
                        lemma_fix_reads(
                            order,
                            root,
                            policy,
                            call_started(policy, action, false),
                        );
                    },
                    Err(_) => {},
                }
            },
            (FixPhaseView::Reading { root, policy, call }, SessionReplyView::File(reply)) => {
                lemma_resumed(policy, call.action, false, call, reply);
                lemma_fix_reads(order, root, policy, call_resumed(policy, call, reply));
            },
            (FixPhaseView::Working { session, replacement }, reply) => {
                sessions_lead_on(session, reply);
            },
            _ => {},
        }
    }
}

/// A repair whose text is searched for in vain, or found more than once, fails
/// without having asked for anything but the reading of the file, and without a
/// run.
pub proof fn ambiguous_repairs_change_nothing(
    order: FixOrderView,
    root: Seq<char>,
    source: Seq<char>,
)
    requires
        occurrences(source, order.find, 0) != 1,
    ensures
        ({
            let (fix, step) = crate::agent::fix_edits(order, root, source);
            &&& fix.phase is Closed
            &&& step matches FixStepView::Done(Err(error)) && error is GateFailed
        }),
{
}

// Repairs by the plan of a model

/// A planned repair after it was told a number of things, and what it asks for.
pub open spec fn planner_after(order: PlanOrderView, replies: Seq<PlannerReplyView>) -> (
    PlannerView,
    PlannerStepView,
)
    decreases replies.len(),
{
    if replies.len() == 0 {
        planner_started(order)
    } else {
        planner_next(planner_after(order, replies.drop_last()).0, replies.last())
    }
}

/// Whether a run is that of a planned repair before its steps are added: one
/// step, for the plan.
pub open spec fn is_planning_run(run: RunView) -> bool {
    &&& well_formed(run)
    &&& run.steps.len() == 1
    &&& run.steps[0].index == 0
    &&& run.steps[0].id == crate::run::step_id(0)
}

/// Whether a repair comes from a plan that was accepted.
pub open spec fn is_accepted_fix(order: PlanOrderView, fix: PlannedFixView) -> bool {
    exists|plan: AgentPlanView| #[trigger]
        plan_check(plan, order.style) is Ok && fix_plan(plan) == Ok::<
            crate::agent::RepoFixPlanView,
            ExecutionErrorView,
        >(fix.plan)
}

/// What holds of a planned repair at all times.
pub open spec fn planner_is_sound(order: PlanOrderView, planner: PlannerView) -> bool {
    &&& planner.order == order
    &&& match planner.phase {
        PlannerPhaseView::Planning { run } => is_planning_run(run),
        PlannerPhaseView::Reopening { run, fix } => is_planning_run(run) && is_accepted_fix(
            order,
            fix,
        ),
        PlannerPhaseView::Trying { run, fix, policy, trials, call, .. } => {
            &&& is_planning_run(run)
            &&& is_accepted_fix(order, fix)
            &&& trials.round < 3
            &&& call_is_sound(policy, call.action, true, call)
        },
        PlannerPhaseView::Working { session, .. } => session_is_sound(session),
        _ => true,
    }
}

/// What holds of what a planned repair asks for. Until its plan is accepted and
/// tried it may neither read, list, write nor run anything.
pub open spec fn planner_step_is_sound(planner: PlannerView, step: PlannerStepView) -> bool {
    match (planner.phase, step) {
        (PlannerPhaseView::Working { session, .. }, PlannerStepView::Ask(request)) => {
            request_is_sound(session, request)
        },
        (
            PlannerPhaseView::Working { session, summary },
            PlannerStepView::Done(Ok(result)),
        ) => {
            &&& session.run.status == RunStatus::Succeeded
            &&& done_before(session.run.steps, session.run.steps.len())
            &&& result == (RepoFixResultView { run_id: planner.order.run_id, output: summary })
        },
        (_, PlannerStepView::Ask(SessionRequestView::File(request))) => {
            request is Canonicalize || request is CheckLink
        },
        (_, PlannerStepView::Done(Ok(_))) => false,
        _ => true,
    }
}

proof fn lemma_judged(
    order: PlanOrderView,
    run: RunView,
    text: Seq<char>,
    parsed: Result<crate::json::JsonView, Seq<char>>,
)
    requires
        is_planning_run(run),
    ensures
        ({
            let (planner, step) = planner_judges(order, run, text, plan_from(parsed, order.style));
            planner_is_sound(order, planner) && planner_step_is_sound(planner, step)
        }),
{
    match plan_from(parsed, order.style) {
        Ok(plan) => {
            assert(plan_check(plan, order.style) is Ok);
        },
        Err(_) => {},
    }
}

proof fn lemma_planning_begins(order: PlanOrderView)
    ensures
        crate::planner::planning_run(order) is Ok,
        is_planning_run(crate::planner::planning_run(order)->Ok_0),
        !crate::planner::planning_run(order)->Ok_0.steps[0].completed,
{
    numbered_steps_can_be_created(order.run_id, 1);
    created_run_is_well_formed(order.run_id, step_sequence(1));
    let created = created_run(order.run_id, step_sequence(1))->Ok_0;
    event_continues(
        created,
        "agent.created"@,
        None,
        "agent=repo-fix-model model="@ + order.request.model,
    );
    assert(created.steps[0] == pending_step(step_sequence(1)[0]));
}

proof fn lemma_planner_asks(order: PlanOrderView, payload: Result<Seq<char>, Seq<char>>)
    ensures
        ({
            let (planner, step) = planner_asks(order, payload);
            planner_is_sound(order, planner) && planner_step_is_sound(planner, step)
        }),
{
    lemma_planning_begins(order);
    let run = crate::planner::planning_run(order)->Ok_0;
    let started = started_run(run);
    starting_continues(run);
    match llm_begun(run, 0, payload) {
        (begun, Ok(Some(text))) => {
            lemma_judged(order, begun, text, plan_json(text));
        },
        (begun, Ok(None)) => {
            event_continues(
                started,
                "llm.request"@,
                Some(0),
                "request="@ + payload->Ok_0,
            );
        },
        _ => {},
    }
}

proof fn lemma_planner_answered(
    order: PlanOrderView,
    run: RunView,
    outcome: Result<ModelResponseView, ModelErrorView>,
)
    requires
        is_planning_run(run),
    ensures
        ({
            let (planner, step) = planner_answered(order, run, outcome);
            planner_is_sound(order, planner) && planner_step_is_sound(planner, step)
        }),
{
    let answered = answered_run(run, 0, outcome);
    event_continues(
        run,
        answered.events.last().event_type,
        Some(0),
        answered.events.last().payload,
    );
    match llm_ended(run, 0, outcome) {
        (ended, Ok(text)) => {
            completion_continues(answered, 0, text);
            lemma_step_position(answered.steps, 0);
            lemma_judged(order, ended, text, plan_json(text));
        },
        _ => {},
    }
}

proof fn lemma_expanded(run: RunView)
    requires
        is_planning_run(run),
    ensures
        ({
            let after = expanded_run(run, step_sequence(5).subrange(1, 5));
            &&& after is Ok
            &&& well_formed(after->Ok_0)
            &&& after->Ok_0.run_id == run.run_id
            &&& after->Ok_0.results == run.results
            &&& after->Ok_0.steps.len() == 5
            &&& after->Ok_0.steps[0] == run.steps[0]
            &&& forall|i: int|
                1 <= i < 5 ==> #[trigger] after->Ok_0.steps[i] == pending_step(step_sequence(5)[i])
        }),
{
    let added = step_sequence(5).subrange(1, 5);
    lemma_added(run, 4);
    assert(added.take(4) =~= added);
    expansion_continues(run, added);
}

proof fn lemma_added(run: RunView, count: nat)
    requires
        is_planning_run(run),
        count <= 4,
    ensures
        ({
            let after = crate::store::add_steps(
                run.steps,
                step_sequence(5).subrange(1, 5).take(count as int),
            );
            &&& after is Ok
            &&& after->Ok_0.len() == count + 1
            &&& after->Ok_0[0] == run.steps[0]
            &&& forall|i: int|
                1 <= i <= count ==> #[trigger] after->Ok_0[i] == pending_step(step_sequence(5)[i])
        }),
    decreases count,
{
    let all = step_sequence(5).subrange(1, 5);
    if count > 0 {
        let smaller = (count - 1) as nat;
        lemma_added(run, smaller);
        let part = all.take(count as int);
        assert(part.drop_last() =~= all.take(smaller as int));
        assert(part.last() == step_sequence(5)[count as int]);
        let before = crate::store::add_steps(run.steps, part.drop_last())->Ok_0;
        assert forall|i: int| 0 <= i < before.len() implies (#[trigger] before[i]).index == i
            && before[i].id == crate::run::step_id(i as nat) by {
            if i > 0 {
                assert(before[i] == pending_step(step_sequence(5)[i]));
            }
        }
        assert(!crate::store::has_index(before, part.last().index));
        assert(!crate::store::has_id(before, part.last().id)) by {
            if crate::store::has_id(before, part.last().id) {
                let i = choose|i: int|
                    0 <= i < before.len() && (#[trigger] before[i]).id == part.last().id;
                crate::run::step_ids_are_distinct(i as nat, count);
            }
        }
        assert(before.last() == before[before.len() - 1]);
    } else {
        assert(all.take(0) =~= Seq::<crate::run::StepDefinitionView>::empty());
    }
}

/// The run of an accepted plan can always be extended by the four steps of the
/// repair.
pub proof fn accepted_plans_can_be_carried_out(
    order: PlanOrderView,
    run: RunView,
    fix: PlannedFixView,
    root: Seq<char>,
)
    requires
        is_planning_run(run),
    ensures
        repair_run(order, run, fix, root) is Ok,
        ({
            let after = repair_run(order, run, fix, root)->Ok_0;
            let specs = fix_specs(
                order.run_id,
                1,
                root,
                fix.plan.path,
                fix.plan.contents,
                fix.plan.expected,
            );
            &&& well_formed(after)
            &&& after.run_id == run.run_id
            &&& after.results == run.results
            &&& after.steps.len() == 5
            &&& after.steps[0].completed == run.steps[0].completed
            &&& forall|i: int|
                1 <= i < 5 ==> !(#[trigger] after.steps[i]).completed && after.steps[i].spec
                    == Some(specs[i - 1])
        }),
{
    let told = with_event(
        run,
        "agent.plan"@,
        Some(0),
        "summary="@ + fix.plan.summary + " plan_sha256="@ + crate::audit::text_hash(fix.text),
    );
    event_continues(run, "agent.plan"@, Some(0), told.events.last().payload);
    let validated = validated_run(run, fix);
    event_continues(told, "agent.plan_validated"@, Some(0), validated.events.last().payload);
    lemma_expanded(validated);
    let longer = expanded_run(validated, step_sequence(5).subrange(1, 5))->Ok_0;
    assert forall|i: int| 0 <= i < longer.steps.len() implies (#[trigger] longer.steps[i]).index
        == i by {
        if i > 0 {
            assert(longer.steps[i] == pending_step(step_sequence(5)[i]));
        }
    }
    let specs = fix_specs(
        order.run_id,
        1,
        root,
        fix.plan.path,
        fix.plan.contents,
        fix.plan.expected,
    );
    lemma_configured(longer, 1, specs);
    let after = configured_steps(longer, 1, specs)->Ok_0;
    assert forall|i: int| 1 <= i < 5 implies !(#[trigger] after.steps[i]).completed
        && after.steps[i].spec == Some(specs[i - 1]) by {
        assert(after.steps[i].index == i);
        assert(longer.steps[i] == pending_step(step_sequence(5)[i]));
    }
}

proof fn lemma_planner_tries(
    order: PlanOrderView,
    run: RunView,
    fix: PlannedFixView,
    root: Seq<char>,
    policy: PolicyView,
    trials: TrialsView,
    next: (ToolCallView, ToolProgressView),
)
    requires
        is_planning_run(run),
        is_accepted_fix(order, fix),
        trials.round < 3,
        call_is_sound(policy, next.0.action, true, next.0),
        next.1 matches ToolProgressView::Ask(request) ==> permitted(
            policy,
            next.0.action,
            true,
            request,
        ),
    ensures
        ({
            let (planner, step) = planner_tries(order, run, fix, root, policy, trials, next);
            planner_is_sound(order, planner) && planner_step_is_sound(planner, step)
        }),
    decreases 3 - trials.round,
{
    match next.1 {
        ToolProgressView::Ask(_) => {},
        ToolProgressView::Done(outcome) => {
            let fault = crate::planner::fault_after(trials.fault, outcome);
            if trials.round < 2 {
                let round = (trials.round + 1) as nat;
                let action = trial_action(fix.plan, round);
                lemma_started(policy, action, true);
                lemma_planner_tries(
                    order,
                    run,
                    fix,
                    root,
                    policy,
                    TrialsView { round, fault },
                    call_started(policy, action, true),
                );
            } else if fault is None {
                accepted_plans_can_be_carried_out(order, run, fix, root);
                sessions_start_soundly(
                    repair_run(order, run, fix, root)->Ok_0,
                    order.pause_ms,
                    order.style,
                );
            }
        },
    }
}

/// Whatever the host and the model answer, a planned repair asks only for what
/// it may: until a plan is accepted and was tried, nothing in the workspace is
/// read, listed, written or run, and then it asks for what the session of its
/// run permits. It succeeds only when every step of its run is completed.
pub proof fn planned_repairs_are_sound(order: PlanOrderView, replies: Seq<PlannerReplyView>)
    ensures
        planner_is_sound(order, planner_after(order, replies).0),
        planner_step_is_sound(planner_after(order, replies).0, planner_after(order, replies).1),
    decreases replies.len(),
{
    if replies.len() > 0 {
        planned_repairs_are_sound(order, replies.drop_last());
        let planner = planner_after(order, replies.drop_last()).0;
        match (planner.phase, replies.last()) {
            (
                PlannerPhaseView::Opening,
                PlannerReplyView::Host(SessionReplyView::Opened { canonical, is_directory }),
            ) => {
                lemma_planner_asks(order, request_payload(order.request));
            },
            (PlannerPhaseView::Planning { run }, PlannerReplyView::Completed(outcome)) => {
                lemma_planner_answered(order, run, outcome);
            },
            (
                PlannerPhaseView::Reopening { run, fix },
                PlannerReplyView::Host(SessionReplyView::Opened { canonical, is_directory }),
            ) => {
                match workspace_root(canonical, is_directory) {
                    Ok(root) => {
                        let policy = workspace_policy(root, order.style);
                        let action = trial_action(fix.plan, 0);
                        lemma_started(policy, action, true);
                        lemma_planner_tries(
                            order,
                            run,
                            fix,
                            root,
                            policy,
                            TrialsView { round: 0, fault: None },
                            call_started(policy, action, true),
                        );
                    },
                    Err(_) => {},
                }
            },
            (
                PlannerPhaseView::Trying { run, fix, root, policy, trials, call },
                PlannerReplyView::Host(SessionReplyView::File(reply)),
            ) => {
                lemma_resumed(policy, call.action, true, call, reply);
                lemma_planner_tries(
                    order,
                    run,
                    fix,
                    root,
                    policy,
                    trials,
                    call_resumed(policy, call, reply),
                );
            },
            (PlannerPhaseView::Working { session, summary }, PlannerReplyView::Host(reply)) => {
                sessions_lead_on(session, reply);
            },
            _ => {},
        }
    }
}

/// The file of a planned repair lies in the workspace: its path is relative and
/// never goes up.
pub proof fn planned_repairs_stay_in_the_workspace(order: PlanOrderView, fix: PlannedFixView)
    requires
        is_accepted_fix(order, fix),
    ensures
        is_plain_relative(order.style, fix.plan.path),
{
    let plan = choose|plan: AgentPlanView| #[trigger]
        plan_check(plan, order.style) is Ok && fix_plan(plan) == Ok::<
            crate::agent::RepoFixPlanView,
            ExecutionErrorView,
        >(fix.plan);
    accepted_plans_stay_in_the_workspace(plan, order.style, 0);
}

/// A plan that is refused ends the repair, and the refusal is the last event of
/// its run.
pub proof fn refusals_are_recorded(
    order: PlanOrderView,
    run: RunView,
    text: Seq<char>,
    parsed: Result<AgentPlanView, PlanErrorView>,
)
    requires
        parsed is Err || fix_plan(parsed->Ok_0) is Err,
    ensures
        ({
            let (planner, step) = planner_judges(order, run, text, parsed);
            &&& step matches PlannerStepView::Done(Err(error)) && error is Plan
            &&& planner.phase matches PlannerPhaseView::Stopped { run: stopped } && {
                &&& stopped.events.len() == run.events.len() + 1
                &&& stopped.events.last().event_type == "agent.plan_rejected"@
                &&& stopped.steps == run.steps
            }
        }),
{
}

} // verus!
