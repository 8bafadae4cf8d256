//! What holds of deterministic steps that are executed, interrupted and taken
//! up again.

use crate::exec::{
    defined_position, definitions_stored, executed, execution, execution_step, is_pending,
    is_step, lemma_defined_position, pending_of, plain_output, ExecutionErrorView,
};
use crate::history::{
    completion_continues, continues, continues_is_transitive, created_run_holds_its_definitions,
    created_run_is_well_formed, distinct_definitions, finishing_continues, lemma_updated_position,
    numbered_steps_can_be_created, starting_continues, steps_defined, steps_in_order, well_formed,
};
use crate::recovery::lemma_unique_position;
use crate::run::{step_sequence, RunStatus, StepDefinitionView};
use crate::store::{
    completed_run, created_run, lemma_step_position, pending_step, started_run, step_position,
    RunView, StoredStepView,
};
use vstd::prelude::*;

verus! {

/// The progress of a run: its steps and how far it has come.
spec fn progress(run: RunView) -> (Seq<StoredStepView>, nat) {
    (run.steps, run.current_step)
}

spec fn marked(steps: Seq<StoredStepView>, definition: StepDefinitionView) -> Seq<StoredStepView> {
    match step_position(steps, definition.index) {
        Some(position) => if steps[position].completed {
            steps
        } else {
            steps.update(
                position,
                StoredStepView {
                    completed: true,
                    output: Some(plain_output(definition.id)),
                    ..steps[position]
                },
            )
        },
        None => steps,
    }
}

spec fn did(
    state: (Seq<StoredStepView>, nat),
    definition: StepDefinitionView,
) -> (Seq<StoredStepView>, nat) {
    (
        marked(state.0, definition),
        if state.1 < definition.index + 1 {
            definition.index + 1
        } else {
            state.1
        },
    )
}

spec fn did_all(
    state: (Seq<StoredStepView>, nat),
    definitions: Seq<StepDefinitionView>,
) -> (Seq<StoredStepView>, nat)
    decreases definitions.len(),
{
    if definitions.len() == 0 {
        state
    } else {
        did_all(did(state, definitions[0]), definitions.skip(1))
    }
}

spec fn all_present(
    steps: Seq<StoredStepView>,
    definitions: Seq<StepDefinitionView>,
) -> bool {
    forall|i: int|
        0 <= i < definitions.len() ==> step_position(
            steps,
            (#[trigger] definitions[i]).index,
        ) is Some
}

proof fn lemma_marked(steps: Seq<StoredStepView>, definition: StepDefinitionView)
    ensures
        marked(steps, definition).len() == steps.len(),
        forall|i: int|
            #![trigger marked(steps, definition)[i]]
            0 <= i < steps.len() ==> marked(steps, definition)[i].index == steps[i].index
                && marked(steps, definition)[i].id == steps[i].id,
        forall|index: nat| #[trigger]
            step_position(marked(steps, definition), index) == step_position(steps, index),
{
    lemma_step_position(steps, definition.index);
    match step_position(steps, definition.index) {
        Some(position) => {
            if !steps[position].completed {
                let done = marked(steps, definition)[position];
                assert forall|index: nat| #[trigger]
                    step_position(marked(steps, definition), index) == step_position(
                        steps,
                        index,
                    ) by {
                    lemma_updated_position(steps, position, done, index);
                }
            }
        },
        None => {},
    }
}

proof fn lemma_did_all_joined(
    state: (Seq<StoredStepView>, nat),
    first: Seq<StepDefinitionView>,
    second: Seq<StepDefinitionView>,
)
    ensures
        did_all(did_all(state, first), second) == did_all(state, first + second),
    decreases first.len(),
{
    if first.len() == 0 {
        assert(first + second =~= second);
    } else {
        lemma_did_all_joined(did(state, first[0]), first.skip(1), second);
        assert((first + second)[0] == first[0]);
        assert((first + second).skip(1) =~= first.skip(1) + second);
    }
}

proof fn lemma_one_step(run: RunView, pending: Seq<StepDefinitionView>, at: nat)
    requires
        at < pending.len(),
        all_present(run.steps, pending),
        well_formed(run),
    ensures
        ({
            let definition = pending[at as int];
            let next = completed_run(run, definition.index, plain_output(definition.id));
            &&& next is Ok
            &&& progress(next->Ok_0) == did(progress(run), definition)
            &&& all_present(next->Ok_0.steps, pending)
            &&& well_formed(next->Ok_0)
            &&& continues(run, next->Ok_0)
            &&& next->Ok_0.status == run.status
            &&& next->Ok_0.run_id == run.run_id
        }),
{
    let definition = pending[at as int];
    assert(step_position(run.steps, definition.index) is Some);
    completion_continues(run, definition.index, plain_output(definition.id));
    let next = completed_run(run, definition.index, plain_output(definition.id))->Ok_0;
    lemma_marked(run.steps, definition);
    assert(next.steps =~= marked(run.steps, definition));
}

proof fn lemma_straight(run: RunView, pending: Seq<StepDefinitionView>, at: nat)
    requires
        at <= pending.len(),
        all_present(run.steps, pending),
        well_formed(run),
    ensures
        ({
            let (end, result) = executed(run, pending, at, None);
            &&& result == Ok::<(), ExecutionErrorView>(())
            &&& progress(end) == did_all(progress(run), pending.skip(at as int))
            &&& end.status == RunStatus::Succeeded
            &&& continues(run, end)
            &&& well_formed(end)
        }),
    decreases pending.len() - at,
{
    if at < pending.len() {
        lemma_one_step(run, pending, at);
        let next = execution_step(run, pending, at, None).0;
        lemma_straight(next, pending, at + 1);
        assert(pending.skip(at as int)[0] == pending[at as int]);
        assert(pending.skip(at as int).skip(1) =~= pending.skip(at as int + 1));
        continues_is_transitive(run, next, executed(run, pending, at, None).0);
    } else {
        finishing_continues(run);
    }
}

proof fn lemma_crashing(run: RunView, pending: Seq<StepDefinitionView>, at: nat, count: nat)
    requires
        at < count <= pending.len(),
        all_present(run.steps, pending),
        well_formed(run),
    ensures
        ({
            let (end, result) = executed(run, pending, at, Some(count));
            &&& result == Err::<(), ExecutionErrorView>(
                ExecutionErrorView::SimulatedCrash { run_id: run.run_id, completed: count },
            )
            &&& progress(end) == did_all(progress(run), pending.subrange(at as int, count as int))
            &&& end.status == run.status
            &&& continues(run, end)
            &&& well_formed(end)
        }),
    decreases count - at,
{
    lemma_one_step(run, pending, at);
    let next = execution_step(run, pending, at, Some(count)).0;
    let part = pending.subrange(at as int, count as int);
    assert(part[0] == pending[at as int]);
    if at + 1 < count {
        lemma_crashing(next, pending, at + 1, count);
        assert(part.skip(1) =~= pending.subrange(at as int + 1, count as int));
        continues_is_transitive(run, next, executed(run, pending, at, Some(count)).0);
    } else {
        reveal_with_fuel(did_all, 2);
        assert(part.skip(1) =~= Seq::<StepDefinitionView>::empty());
    }
}

proof fn lemma_never_crashing(run: RunView, pending: Seq<StepDefinitionView>, at: nat, count: nat)
    requires
        at <= pending.len(),
        count <= at || pending.len() < count,
        all_present(run.steps, pending),
        well_formed(run),
    ensures
        executed(run, pending, at, Some(count)) == executed(run, pending, at, None),
        executed(run, pending, at, Some(count)).1 is Ok,
    decreases pending.len() - at,
{
    if at < pending.len() {
        lemma_one_step(run, pending, at);
        let next = execution_step(run, pending, at, Some(count)).0;
        lemma_never_crashing(next, pending, at + 1, count);
    }
}

// Which steps are left

spec fn names_index(definitions: Seq<StepDefinitionView>, index: nat) -> bool {
    exists|i: int| 0 <= i < definitions.len() && (#[trigger] definitions[i]).index == index
}

proof fn lemma_done_flags(
    state: (Seq<StoredStepView>, nat),
    definitions: Seq<StepDefinitionView>,
    position: int,
)
    requires
        0 <= position < state.0.len(),
        step_position(state.0, state.0[position].index) == Some(position),
    ensures
        ({
            let after = did_all(state, definitions).0;
            &&& after.len() == state.0.len()
            &&& after[position].index == state.0[position].index
            &&& after[position].id == state.0[position].id
            &&& after[position].completed == (state.0[position].completed || names_index(
                definitions,
                state.0[position].index,
            ))
            &&& step_position(after, after[position].index) == Some(position)
        }),
    decreases definitions.len(),
{
    if definitions.len() > 0 {
        let index = state.0[position].index;
        let next = did(state, definitions[0]);
        lemma_marked(state.0, definitions[0]);
        lemma_step_position(state.0, definitions[0].index);
        lemma_done_flags(next, definitions.skip(1), position);
        assert(next.0[position].completed == (state.0[position].completed || definitions[0].index
            == index));
        if names_index(definitions.skip(1), index) {
            let i = choose|i: int|
                0 <= i < definitions.skip(1).len() && (#[trigger] definitions.skip(1)[i]).index
                    == index;
            assert(definitions[i + 1].index == index);
        }
        if names_index(definitions, index) {
            let i = choose|i: int|
                0 <= i < definitions.len() && (#[trigger] definitions[i]).index == index;
            if i > 0 {
                assert(definitions.skip(1)[i - 1].index == index);
            }
        }
    }
}

/// In a run with steps in order, a stored definition stands where its index
/// does.
proof fn lemma_stored_position(steps: Seq<StoredStepView>, definition: StepDefinitionView)
    requires
        crate::history::steps_in_order(steps),
        defined_position(steps, definition) is Some,
    ensures
        step_position(steps, definition.index) == defined_position(steps, definition),
{
    lemma_defined_position(steps, definition);
    lemma_step_position(steps, definition.index);
    let p = defined_position(steps, definition)->0;
    match step_position(steps, definition.index) {
        None => {
            assert(steps[p].index != definition.index);
        },
        Some(q) => {
            if q < p {
                assert(steps[q].index < steps[p].index);
            } else if p < q {
                assert(steps[p].index < steps[q].index);
            }
        },
    }
}

proof fn lemma_pending_after(
    before: Seq<StoredStepView>,
    after: Seq<StoredStepView>,
    definition: StepDefinitionView,
    position: int,
)
    requires
        0 <= position < before.len(),
        after.len() == before.len(),
        defined_position(before, definition) == Some(position),
        step_position(after, definition.index) == Some(position),
        after[position].index == before[position].index,
        after[position].id == before[position].id,
    ensures
        is_pending(after, definition) == !after[position].completed,
{
    lemma_defined_position(before, definition);
    lemma_defined_position(after, definition);
    lemma_step_position(after, definition.index);
    assert(is_step(after[position], definition));
    match defined_position(after, definition) {
        None => {
            assert(!is_step(after[position], definition));
        },
        Some(q) => {
            if q < position {
                assert(after[q].index != definition.index);
            } else if position < q {
                lemma_first_defined(after, definition, position);
            }
        },
    }
}

proof fn lemma_first_defined(
    steps: Seq<StoredStepView>,
    definition: StepDefinitionView,
    position: int,
)
    requires
        0 <= position < steps.len(),
        is_step(steps[position], definition),
    ensures
        defined_position(steps, definition) is Some,
        defined_position(steps, definition)->0 <= position,
    decreases steps.len(),
{
    if position < steps.len() - 1 {
        lemma_first_defined(steps.drop_last(), definition, position);
    } else {
        lemma_defined_position(steps.drop_last(), definition);
    }
}

proof fn lemma_pending_prefix(
    steps: Seq<StoredStepView>,
    definitions: Seq<StepDefinitionView>,
    upto: int,
)
    requires
        0 <= upto <= definitions.len(),
    ensures
        pending_of(steps, definitions.take(upto)).is_prefix_of(pending_of(steps, definitions)),
    decreases definitions.len() - upto,
{
    if upto < definitions.len() {
        lemma_pending_prefix(steps, definitions, upto + 1);
        assert(definitions.take(upto + 1).drop_last() =~= definitions.take(upto));
        let small = pending_of(steps, definitions.take(upto));
        let large = pending_of(steps, definitions.take(upto + 1));
        let whole = pending_of(steps, definitions);
        assert(whole.take(small.len() as int) =~= large.take(small.len() as int));
        assert(large.take(small.len() as int) =~= small);
    } else {
        assert(definitions.take(upto) =~= definitions);
        let whole = pending_of(steps, definitions);
        assert(whole.take(whole.len() as int) =~= whole);
    }
}

proof fn lemma_pending_from(
    steps: Seq<StoredStepView>,
    definitions: Seq<StepDefinitionView>,
    i: int,
) -> (j: int)
    requires
        0 <= i < pending_of(steps, definitions).len(),
    ensures
        0 <= j < definitions.len(),
        pending_of(steps, definitions)[i] == definitions[j],
        is_pending(steps, definitions[j]),
    decreases definitions.len(),
{
    let front = pending_of(steps, definitions.drop_last());
    if i < front.len() {
        lemma_pending_from(steps, definitions.drop_last(), i)
    } else {
        definitions.len() - 1
    }
}

proof fn lemma_left_over(
    run: RunView,
    definitions: Seq<StepDefinitionView>,
    count: nat,
    upto: int,
)
    requires
        well_formed(run),
        definitions_stored(run.steps, definitions),
        distinct_definitions(definitions),
        count <= pending_of(run.steps, definitions).len(),
        0 <= upto <= definitions.len(),
    ensures
        ({
            let pending = pending_of(run.steps, definitions);
            let after = did_all(progress(run), pending.take(count as int)).0;
            let part = pending_of(run.steps, definitions.take(upto));
            pending_of(after, definitions.take(upto)) == if part.len() <= count {
                Seq::<StepDefinitionView>::empty()
            } else {
                part.skip(count as int)
            }
        }),
    decreases upto,
{
    let pending = pending_of(run.steps, definitions);
    let done = pending.take(count as int);
    let after = did_all(progress(run), done).0;
    if upto == 0 {
        assert(definitions.take(0) =~= Seq::<StepDefinitionView>::empty());
    } else {
        lemma_left_over(run, definitions, count, upto - 1);
        let front = definitions.take(upto).drop_last();
        assert(front =~= definitions.take(upto - 1));
        let definition = definitions[upto - 1];
        assert(definitions.take(upto).last() == definition);
        let before = pending_of(run.steps, front);
        let part = pending_of(run.steps, definitions.take(upto));
        assert(defined_position(run.steps, definition) is Some);
        let position = defined_position(run.steps, definition)->0;
        lemma_defined_position(run.steps, definition);
        lemma_stored_position(run.steps, definition);
        lemma_done_flags(progress(run), done, position);
        lemma_pending_after(run.steps, after, definition, position);
        lemma_pending_prefix(run.steps, definitions, upto);
        lemma_pending_prefix(run.steps, definitions, upto - 1);
        assert(pending.take(part.len() as int) =~= part);
        if is_pending(run.steps, definition) {
            assert(part == before.push(definition));
            assert(pending[before.len() as int] == definition) by {
                assert(pending.take(part.len() as int)[before.len() as int] == part[before.len() as int]);
            }
            if before.len() < count {
                assert(done[before.len() as int].index == definition.index);
                assert(names_index(done, definition.index));
                assert(!is_pending(after, definition));
                assert(pending_of(after, definitions.take(upto)) =~= Seq::<
                    StepDefinitionView,
                >::empty());
            } else {
                if names_index(done, definition.index) {
                    let i = choose|i: int|
                        0 <= i < done.len() && (#[trigger] done[i]).index == definition.index;
                    assert(pending[i] == done[i]);
                    assert(before[i] == pending[i]) by {
                        assert(pending.take(before.len() as int)[i] == pending[i]);
                    }
                    let j = lemma_pending_from(run.steps, front, i);
                    assert(definitions[j].index == definition.index);
                    assert(definitions[upto - 1].index == definition.index);
                }
                assert(is_pending(after, definition));
                assert(pending_of(after, definitions.take(upto)) =~= part.skip(count as int));
            }
        } else {
            assert(part == before);
            assert(!is_pending(after, definition));
        }
    }
}

proof fn lemma_pending_present(run: RunView, definitions: Seq<StepDefinitionView>)
    requires
        well_formed(run),
        definitions_stored(run.steps, definitions),
    ensures
        all_present(run.steps, pending_of(run.steps, definitions)),
{
    let pending = pending_of(run.steps, definitions);
    assert forall|i: int| 0 <= i < pending.len() implies step_position(
        run.steps,
        (#[trigger] pending[i]).index,
    ) is Some by {
        let j = lemma_pending_from(run.steps, definitions, i);
        assert(defined_position(run.steps, definitions[j]) is Some);
        lemma_stored_position(run.steps, definitions[j]);
    }
}

/// An execution without a simulated crash always succeeds.
pub proof fn executions_succeed(run: RunView, definitions: Seq<StepDefinitionView>)
    requires
        well_formed(run),
        definitions_stored(run.steps, definitions),
    ensures
        execution(run, definitions, None).1 == Ok::<(), ExecutionErrorView>(()),
        execution(run, definitions, None).0.status == RunStatus::Succeeded,
        continues(run, execution(run, definitions, None).0),
        well_formed(execution(run, definitions, None).0),
{
    starting_continues(run);
    lemma_pending_present(run, definitions);
    let pending = pending_of(run.steps, definitions);
    lemma_straight(started_run(run), pending, 0);
    continues_is_transitive(run, started_run(run), execution(run, definitions, None).0);
}

/// An execution crashes on demand exactly when enough steps are pending, and
/// then it leaves the run running.
pub proof fn crashes_come_on_demand(
    run: RunView,
    definitions: Seq<StepDefinitionView>,
    count: nat,
)
    requires
        well_formed(run),
        definitions_stored(run.steps, definitions),
    ensures
        ({
            let (end, result) = execution(run, definitions, Some(count));
            if 1 <= count <= pending_of(run.steps, definitions).len() {
                &&& result == Err::<(), ExecutionErrorView>(
                    ExecutionErrorView::SimulatedCrash { run_id: run.run_id, completed: count },
                )
                &&& end.status == RunStatus::Running
                &&& continues(run, end)
            } else {
                result is Ok
            }
        }),
{
    starting_continues(run);
    lemma_pending_present(run, definitions);
    let pending = pending_of(run.steps, definitions);
    if 1 <= count <= pending.len() {
        lemma_crashing(started_run(run), pending, 0, count);
        continues_is_transitive(
            run,
            started_run(run),
            execution(run, definitions, Some(count)).0,
        );
    } else {
        lemma_never_crashing(started_run(run), pending, 0, count);
    }
}

/// How many of the pending steps an execution does.
pub open spec fn done_by(pending: Seq<StepDefinitionView>, crash_after: Option<nat>) -> nat {
    match crash_after {
        Some(count) => if 1 <= count <= pending.len() {
            count
        } else {
            pending.len()
        },
        None => pending.len(),
    }
}

/// What an execution leaves, whether it crashes or not.
proof fn lemma_execution(
    run: RunView,
    definitions: Seq<StepDefinitionView>,
    crash_after: Option<nat>,
)
    requires
        well_formed(run),
        definitions_stored(run.steps, definitions),
        distinct_definitions(definitions),
    ensures
        ({
            let pending = pending_of(run.steps, definitions);
            let count = done_by(pending, crash_after) as int;
            let end = execution(run, definitions, crash_after).0;
            &&& progress(end) == did_all(progress(run), pending.take(count))
            &&& well_formed(end)
            &&& continues(run, end)
            &&& definitions_stored(end.steps, definitions)
            &&& pending_of(end.steps, definitions) == pending.skip(count)
        }),
{
    let pending = pending_of(run.steps, definitions);
    let count = done_by(pending, crash_after);
    let started = started_run(run);
    let end = execution(run, definitions, crash_after).0;
    let done = pending.take(count as int);
    starting_continues(run);
    lemma_pending_present(run, definitions);
    match crash_after {
        Some(after) => if 1 <= after <= pending.len() {
            lemma_crashing(started, pending, 0, after);
            assert(pending.subrange(0, after as int) =~= done);
        } else {
            lemma_never_crashing(started, pending, 0, after);
            lemma_straight(started, pending, 0);
        },
        None => {
            lemma_straight(started, pending, 0);
        },
    }
    assert(pending.skip(0) =~= pending);
    assert(pending.take(pending.len() as int) =~= pending);
    continues_is_transitive(run, started, end);
    lemma_left_over(run, definitions, count, definitions.len() as int);
    assert(definitions.take(definitions.len() as int) =~= definitions);
    assert(pending_of(end.steps, definitions) =~= pending.skip(count as int));
    assert forall|i: int| 0 <= i < definitions.len() implies match defined_position(
        end.steps,
        #[trigger] definitions[i],
    ) {
        Some(position) => end.steps[position].completed ==> end.steps[position].output is Some,
        None => false,
    } by {
        let definition = definitions[i];
        assert(defined_position(run.steps, definition) is Some);
        let position = defined_position(run.steps, definition)->0;
        lemma_defined_position(run.steps, definition);
        lemma_stored_position(run.steps, definition);
        lemma_done_flags(progress(run), done, position);
        assert(is_step(end.steps[position], definition));
        lemma_defined_position(end.steps, definition);
        if defined_position(end.steps, definition) is None {
            assert(!is_step(end.steps[position], definition));
        }
    }
}

/// An execution without a crash, taken up where another one left off, comes to
/// the same progress as it would have before.
proof fn lemma_resumed(
    run: RunView,
    definitions: Seq<StepDefinitionView>,
    crash_after: Option<nat>,
)
    requires
        well_formed(run),
        definitions_stored(run.steps, definitions),
        distinct_definitions(definitions),
    ensures
        ({
            let left = execution(run, definitions, crash_after).0;
            progress(execution(left, definitions, None).0) == progress(
                execution(run, definitions, None).0,
            )
        }),
{
    let pending = pending_of(run.steps, definitions);
    let count = done_by(pending, crash_after) as int;
    let left = execution(run, definitions, crash_after).0;
    lemma_execution(run, definitions, crash_after);
    lemma_execution(run, definitions, None);
    lemma_execution(left, definitions, None);
    let rest = pending.skip(count);
    assert(rest.take(rest.len() as int) =~= rest);
    assert(pending.take(pending.len() as int) =~= pending);
    lemma_did_all_joined(progress(run), pending.take(count), rest);
    assert(pending.take(count) + rest =~= pending);
}

/// A run that crashes after some steps and is taken up again comes to the same
/// steps, with the same outputs, and the same progress as one that was never
/// interrupted; and no step that was completed before the crash is done again.
pub proof fn crash_and_resume_equal_one_go(
    run: RunView,
    definitions: Seq<StepDefinitionView>,
    count: nat,
)
    requires
        well_formed(run),
        definitions_stored(run.steps, definitions),
        distinct_definitions(definitions),
        1 <= count <= pending_of(run.steps, definitions).len(),
    ensures
        ({
            let crashed = execution(run, definitions, Some(count)).0;
            let resumed = execution(crashed, definitions, None);
            let straight = execution(run, definitions, None);
            &&& well_formed(crashed)
            &&& definitions_stored(crashed.steps, definitions)
            &&& resumed.1 == Ok::<(), ExecutionErrorView>(())
            &&& straight.1 == Ok::<(), ExecutionErrorView>(())
            &&& resumed.0.steps == straight.0.steps
            &&& resumed.0.current_step == straight.0.current_step
            &&& resumed.0.status == straight.0.status
            &&& pending_of(crashed.steps, definitions) == pending_of(run.steps, definitions).skip(
                count as int,
            )
        }),
{
    lemma_execution(run, definitions, Some(count));
    lemma_resumed(run, definitions, Some(count));
    executions_succeed(run, definitions);
    executions_succeed(execution(run, definitions, Some(count)).0, definitions);
}

/// A run after it was executed a number of times, each time with a crash on
/// demand or without one.
pub open spec fn executions(
    run: RunView,
    definitions: Seq<StepDefinitionView>,
    crashes: Seq<Option<nat>>,
) -> RunView
    decreases crashes.len(),
{
    if crashes.len() == 0 {
        run
    } else {
        execution(
            executions(run, definitions, crashes.drop_last()),
            definitions,
            crashes.last(),
        ).0
    }
}

/// However often a run is executed and crashes, and wherever it does, taking it
/// up without a crash comes to the same steps, with the same outputs, the same
/// progress and the same status as one execution that was never interrupted. In
/// between the run stays well formed, what was completed keeps its output, and
/// what is still to do is the end of what was to do at first, so that no step
/// that was completed is done again.
pub proof fn interrupted_executions_equal_one_go(
    run: RunView,
    definitions: Seq<StepDefinitionView>,
    crashes: Seq<Option<nat>>,
)
    requires
        well_formed(run),
        definitions_stored(run.steps, definitions),
        distinct_definitions(definitions),
    ensures
        ({
            let left = executions(run, definitions, crashes);
            let resumed = execution(left, definitions, None);
            let straight = execution(run, definitions, None);
            &&& well_formed(left)
            &&& definitions_stored(left.steps, definitions)
            &&& continues(run, left)
            &&& pending_of(left.steps, definitions).is_suffix_of(
                pending_of(run.steps, definitions),
            )
            &&& continues(left, resumed.0)
            &&& resumed.1 == Ok::<(), ExecutionErrorView>(())
            &&& straight.1 == Ok::<(), ExecutionErrorView>(())
            &&& resumed.0.steps == straight.0.steps
            &&& resumed.0.current_step == straight.0.current_step
            &&& resumed.0.status == straight.0.status
        }),
    decreases crashes.len(),
{
    let left = executions(run, definitions, crashes);
    let pending = pending_of(run.steps, definitions);
    executions_succeed(run, definitions);
    if crashes.len() == 0 {
        lemma_execution(run, definitions, None);
        assert(run.events.take(run.events.len() as int) =~= run.events);
        assert(run.results.take(run.results.len() as int) =~= run.results);
        assert(pending.subrange(0, pending.len() as int) =~= pending);
    } else {
        let before = executions(run, definitions, crashes.drop_last());
        let middle = pending_of(before.steps, definitions);
        interrupted_executions_equal_one_go(run, definitions, crashes.drop_last());
        lemma_execution(before, definitions, crashes.last());
        lemma_resumed(before, definitions, crashes.last());
        continues_is_transitive(run, before, left);
        executions_succeed(left, definitions);
        let rest = pending_of(left.steps, definitions);
        assert(pending.skip(pending.len() - rest.len()) =~= rest) by {
            assert(pending.skip(pending.len() - middle.len()) =~= middle);
        }
    }
}

// Runs from their creation on

proof fn lemma_all_pending(steps: Seq<StoredStepView>, definitions: Seq<StepDefinitionView>)
    requires
        forall|i: int|
            0 <= i < definitions.len() ==> is_pending(steps, #[trigger] definitions[i]),
    ensures
        pending_of(steps, definitions) == definitions,
    decreases definitions.len(),
{
    if definitions.len() > 0 {
        let front = definitions.drop_last();
        assert forall|i: int| 0 <= i < front.len() implies is_pending(
            steps,
            #[trigger] front[i],
        ) by {
            assert(front[i] == definitions[i]);
        }
        lemma_all_pending(steps, front);
        assert(front.push(definitions.last()) =~= definitions);
    }
}

/// Steps that hold their definitions are all still to do.
proof fn lemma_created(run: RunView, definitions: Seq<StepDefinitionView>)
    requires
        well_formed(run),
        steps_defined(run.steps, definitions),
    ensures
        definitions_stored(run.steps, definitions),
        pending_of(run.steps, definitions) == definitions,
        forall|j: int| 0 <= j < run.steps.len() ==> !(#[trigger] run.steps[j]).completed,
{
    assert forall|j: int| 0 <= j < run.steps.len() implies !(
    #[trigger] run.steps[j]).completed by {
        let i = choose|i: int|
            0 <= i < definitions.len() && run.steps[j] == pending_step(
                #[trigger] definitions[i],
            );
        assert(run.steps[j] == pending_step(definitions[i]));
    }
    assert forall|i: int| 0 <= i < definitions.len() implies defined_position(
        run.steps,
        #[trigger] definitions[i],
    ) is Some && is_pending(run.steps, definitions[i]) by {
        let step = pending_step(definitions[i]);
        assert(run.steps.contains(step));
        let k = choose|k: int| 0 <= k < run.steps.len() && run.steps[k] == step;
        assert(is_step(run.steps[k], definitions[i]));
        lemma_defined_position(run.steps, definitions[i]);
    }
    lemma_all_pending(run.steps, definitions);
}

proof fn lemma_outputs(
    state: (Seq<StoredStepView>, nat),
    definitions: Seq<StepDefinitionView>,
    position: int,
)
    requires
        0 <= position < state.0.len(),
        step_position(state.0, state.0[position].index) == Some(position),
        forall|i: int|
            0 <= i < definitions.len() && (#[trigger] definitions[i]).index
                == state.0[position].index ==> definitions[i].id == state.0[position].id,
        state.0[position].completed ==> state.0[position].output == Some(
            plain_output(state.0[position].id),
        ),
    ensures
        ({
            let after = did_all(state, definitions).0[position];
            after.completed ==> after.output == Some(plain_output(state.0[position].id))
        }),
    decreases definitions.len(),
{
    if definitions.len() > 0 {
        let next = did(state, definitions[0]);
        lemma_marked(state.0, definitions[0]);
        lemma_step_position(state.0, definitions[0].index);
        let rest = definitions.skip(1);
        assert forall|i: int| 0 <= i < rest.len() && (#[trigger] rest[i]).index
            == next.0[position].index implies rest[i].id == next.0[position].id by {
            assert(rest[i] == definitions[i + 1]);
        }
        lemma_outputs(next, rest, position);
    }
}

/// A run that was created, was executed any number of times, with crashes
/// anywhere, and then without one, has succeeded: every step is completed with
/// its own output.
pub proof fn interrupted_runs_succeed(
    run_id: Seq<char>,
    definitions: Seq<StepDefinitionView>,
    crashes: Seq<Option<nat>>,
)
    requires
        created_run(run_id, definitions) is Ok,
    ensures
        ({
            let run = created_run(run_id, definitions)->Ok_0;
            let (end, result) = execution(
                executions(run, definitions, crashes),
                definitions,
                None,
            );
            &&& result == Ok::<(), ExecutionErrorView>(())
            &&& end.status == RunStatus::Succeeded
            &&& end.steps.len() == run.steps.len()
            &&& forall|j: int|
                0 <= j < run.steps.len() ==> {
                    &&& (#[trigger] end.steps[j]).index == run.steps[j].index
                    &&& end.steps[j].id == run.steps[j].id
                    &&& end.steps[j].completed
                    &&& end.steps[j].output == Some("completed "@ + run.steps[j].id)
                }
        }),
{
    let run = created_run(run_id, definitions)->Ok_0;
    created_run_is_well_formed(run_id, definitions);
    created_run_holds_its_definitions(run_id, definitions);
    lemma_created(run, definitions);
    interrupted_executions_equal_one_go(run, definitions, crashes);
    executions_succeed(run, definitions);
    lemma_execution(run, definitions, None);
    assert(definitions.take(definitions.len() as int) =~= definitions);
    let straight = execution(run, definitions, None).0;
    lemma_same_count(progress(run), definitions);
    assert forall|j: int| 0 <= j < run.steps.len() implies {
        &&& (#[trigger] straight.steps[j]).index == run.steps[j].index
        &&& straight.steps[j].id == run.steps[j].id
        &&& straight.steps[j].completed
        &&& straight.steps[j].output == Some(plain_output(run.steps[j].id))
    } by {
        lemma_unique_position(run, j as nat);
        lemma_done_flags(progress(run), definitions, j);
        let k = choose|i: int|
            0 <= i < definitions.len() && run.steps[j] == pending_step(
                #[trigger] definitions[i],
            );
        assert(run.steps[j] == pending_step(definitions[k]));
        assert(names_index(definitions, run.steps[j].index));
        assert forall|i: int| 0 <= i < definitions.len() && (#[trigger] definitions[i]).index
            == run.steps[j].index implies definitions[i].id == run.steps[j].id by {
            if i < k {
                assert(definitions[i].index != definitions[k].index);
            } else if k < i {
                assert(definitions[k].index != definitions[i].index);
            }
        }
        lemma_outputs(progress(run), definitions, j);
    }
}

proof fn lemma_same_count(
    state: (Seq<StoredStepView>, nat),
    definitions: Seq<StepDefinitionView>,
)
    ensures
        did_all(state, definitions).0.len() == state.0.len(),
    decreases definitions.len(),
{
    if definitions.len() > 0 {
        lemma_marked(state.0, definitions[0]);
        lemma_same_count(did(state, definitions[0]), definitions.skip(1));
    }
}

/// The position that a run comes to once steps with these definitions are all
/// done: the one after the highest index.
pub open spec fn position_after(definitions: Seq<StepDefinitionView>) -> nat
    decreases definitions.len(),
{
    if definitions.len() == 0 {
        0
    } else {
        let rest = position_after(definitions.skip(1));
        if rest < definitions[0].index + 1 {
            definitions[0].index + 1
        } else {
            rest
        }
    }
}

proof fn lemma_position(
    state: (Seq<StoredStepView>, nat),
    definitions: Seq<StepDefinitionView>,
)
    ensures
        did_all(state, definitions).1 == if state.1 < position_after(definitions) {
            position_after(definitions)
        } else {
            state.1
        },
    decreases definitions.len(),
{
    if definitions.len() > 0 {
        lemma_position(did(state, definitions[0]), definitions.skip(1));
    }
}

/// The position after some definitions is past each of their indices, and no
/// further than a bound on them.
proof fn lemma_position_bounds(definitions: Seq<StepDefinitionView>, bound: nat)
    requires
        forall|i: int|
            0 <= i < definitions.len() ==> (#[trigger] definitions[i]).index < bound,
    ensures
        position_after(definitions) <= bound,
        forall|i: int|
            0 <= i < definitions.len() ==> (#[trigger] definitions[i]).index < position_after(
                definitions,
            ),
    decreases definitions.len(),
{
    if definitions.len() > 0 {
        let rest = definitions.skip(1);
        assert forall|i: int| 0 <= i < rest.len() implies (#[trigger] rest[i]).index < bound by {
            assert(rest[i] == definitions[i + 1]);
        }
        lemma_position_bounds(rest, bound);
        assert forall|i: int| 0 <= i < definitions.len() implies (
        #[trigger] definitions[i]).index < position_after(definitions) by {
            if i > 0 {
                assert(rest[i - 1] == definitions[i]);
            }
        }
    }
}

/// Steps in order have indices that are no smaller than their places.
proof fn lemma_places(steps: Seq<StoredStepView>, place: nat)
    requires
        steps_in_order(steps),
        place < steps.len(),
    ensures
        steps[place as int].index >= place,
    decreases place,
{
    if place > 0 {
        lemma_places(steps, (place - 1) as nat);
        assert(steps[place - 1].index < steps[place as int].index);
    }
}

/// There are no fewer steps than definitions.
proof fn lemma_as_many(steps: Seq<StoredStepView>, definitions: Seq<StepDefinitionView>)
    requires
        steps_in_order(steps),
        steps_defined(steps, definitions),
        distinct_definitions(definitions),
    ensures
        steps.len() >= definitions.len(),
{
    let taken = Seq::new(
        definitions.len(),
        |i: int| steps.index_of(pending_step(definitions[i])),
    );
    assert forall|i: int| 0 <= i < taken.len() implies 0 <= #[trigger] taken[i] < steps.len()
        && steps[taken[i]] == pending_step(definitions[i]) by {
        assert(steps.contains(pending_step(definitions[i])));
    }
    assert(taken.no_duplicates()) by {
        assert forall|i: int, j: int|
            0 <= i < taken.len() && 0 <= j < taken.len() && i != j implies taken[i]
            != taken[j] by {
            if i < j {
                assert(definitions[i].index != definitions[j].index);
            } else {
                assert(definitions[j].index != definitions[i].index);
            }
        }
    }
    taken.unique_seq_to_set();
    vstd::set_lib::lemma_int_range(0, steps.len() as int);
    vstd::set_lib::lemma_len_subset(
        taken.to_set(),
        vstd::set_lib::set_int_range(0, steps.len() as int),
    );
}

/// A run that was created, was executed any number of times, with crashes
/// anywhere, and then without one, has come to the position after its highest
/// index.
pub proof fn interrupted_runs_come_to_their_end(
    run_id: Seq<char>,
    definitions: Seq<StepDefinitionView>,
    crashes: Seq<Option<nat>>,
)
    requires
        created_run(run_id, definitions) is Ok,
    ensures
        ({
            let run = created_run(run_id, definitions)->Ok_0;
            let end = execution(executions(run, definitions, crashes), definitions, None).0;
            end.current_step == position_after(definitions)
        }),
{
    let run = created_run(run_id, definitions)->Ok_0;
    created_run_is_well_formed(run_id, definitions);
    created_run_holds_its_definitions(run_id, definitions);
    lemma_created(run, definitions);
    interrupted_executions_equal_one_go(run, definitions, crashes);
    lemma_execution(run, definitions, None);
    assert(definitions.take(definitions.len() as int) =~= definitions);
    lemma_position(progress(run), definitions);
}

/// A run whose indices are the numbers from zero up to the number of its steps,
/// in any order and with any identifiers, that was executed any number of times,
/// with crashes anywhere, and then without one, has come as far as it has steps.
/// The indices of a run that could be created differ from each other, so it is
/// enough that each is less than the number of steps.
pub proof fn interrupted_runs_are_complete(
    run_id: Seq<char>,
    definitions: Seq<StepDefinitionView>,
    crashes: Seq<Option<nat>>,
)
    requires
        created_run(run_id, definitions) is Ok,
        forall|i: int|
            0 <= i < definitions.len() ==> (#[trigger] definitions[i]).index < definitions.len(),
    ensures
        ({
            let run = created_run(run_id, definitions)->Ok_0;
            let end = execution(executions(run, definitions, crashes), definitions, None).0;
            &&& end.current_step == definitions.len()
            &&& end.steps.len() == definitions.len()
        }),
{
    let run = created_run(run_id, definitions)->Ok_0;
    let steps = run.steps;
    let count = definitions.len();
    interrupted_runs_come_to_their_end(run_id, definitions, crashes);
    interrupted_runs_succeed(run_id, definitions, crashes);
    created_run_is_well_formed(run_id, definitions);
    created_run_holds_its_definitions(run_id, definitions);
    lemma_position_bounds(definitions, count);
    lemma_as_many(steps, definitions);
    if steps.len() > 0 {
        let last = (steps.len() - 1) as nat;
        lemma_places(steps, last);
        let i = choose|i: int|
            0 <= i < definitions.len() && steps[last as int] == pending_step(
                #[trigger] definitions[i],
            );
        assert(steps[last as int] == pending_step(definitions[i]));
        assert(definitions[i].index >= last);
        assert(definitions[i].index < position_after(definitions));
    }
}

/// A run of numbered steps that was executed any number of times, with crashes
/// anywhere, and then without one, has come to its last step.
pub proof fn interrupted_numbered_runs_are_complete(
    run_id: Seq<char>,
    count: nat,
    crashes: Seq<Option<nat>>,
)
    ensures
        created_run(run_id, step_sequence(count)) is Ok,
        ({
            let definitions = step_sequence(count);
            let run = created_run(run_id, definitions)->Ok_0;
            let end = execution(executions(run, definitions, crashes), definitions, None).0;
            end.current_step == count
        }),
{
    let definitions = step_sequence(count);
    numbered_steps_can_be_created(run_id, count);
    interrupted_runs_are_complete(run_id, definitions, crashes);
}

} // verus!
